//! Typed header model shared by JWS and JWE: an ordered claim map with
//! unique names, typed views of the well-known claims (`alg`, `kid`,
//! `crit`, `b64`), and the merge rules the serialization engine relies on.
use vstd::prelude::*;

use crate::JoseError;
use crate::json::{
    JsonVal, JsonValue, check_json_wf, clone_value, json_wf, jview, jview_obj, lemma_jview_obj,
    object_get, spec_object_get, spec_object_has,
};
use crate::text::str_eq;

verus! {

broadcast use vstd::seq::group_seq_axioms, vstd::std_specs::vec::group_vec_axioms;

/// No two entries share a name.
pub open spec fn keys_unique(m: Seq<(Seq<char>, JsonVal)>) -> bool {
    forall|i: int, j: int| 0 <= i < j < m.len() ==> (#[trigger] m[i]).0 != (#[trigger] m[j]).0
}

/// Every claim value is well formed.
pub open spec fn entries_wf(m: Seq<(Seq<char>, JsonVal)>) -> bool {
    forall|i: int| 0 <= i < m.len() ==> json_wf((#[trigger] m[i]).1)
}

/// The entries with the given name removed.
pub open spec fn spec_remove_key(m: Seq<(Seq<char>, JsonVal)>, key: Seq<char>) -> Seq<
    (Seq<char>, JsonVal),
>
    decreases m.len(),
{
    if m.len() == 0 {
        Seq::empty()
    } else if m[0].0 == key {
        spec_remove_key(m.drop_first(), key)
    } else {
        seq![m[0]] + spec_remove_key(m.drop_first(), key)
    }
}

/// Setting a claim: any entry with the name goes, the new pair is appended.
pub open spec fn spec_set_claim(
    m: Seq<(Seq<char>, JsonVal)>,
    key: Seq<char>,
    v: JsonVal,
) -> Seq<(Seq<char>, JsonVal)> {
    spec_remove_key(m, key) + seq![(key, v)]
}

/// The string value of a claim, when it is a string.
pub open spec fn spec_str_claim(m: Seq<(Seq<char>, JsonVal)>, name: Seq<char>) -> Option<
    Seq<char>,
> {
    match spec_object_get(m, name) {
        Some(JsonVal::Str(s)) => Some(s),
        _ => None,
    }
}

/// The boolean value of a claim, when it is a boolean.
pub open spec fn spec_bool_claim(m: Seq<(Seq<char>, JsonVal)>, name: Seq<char>) -> Option<bool> {
    match spec_object_get(m, name) {
        Some(JsonVal::Bool(b)) => Some(b),
        _ => None,
    }
}

/// The strings of an array value, when every element is a string.
pub open spec fn spec_str_list(a: Seq<JsonVal>) -> Option<Seq<Seq<char>>>
    decreases a.len(),
{
    if a.len() == 0 {
        Some(Seq::empty())
    } else {
        match a[0] {
            JsonVal::Str(s) => match spec_str_list(a.drop_first()) {
                Some(rest) => Some(seq![s] + rest),
                None => None,
            },
            _ => None,
        }
    }
}

/// The string-array value of a claim, when it is an array of strings.
pub open spec fn spec_strarr_claim(m: Seq<(Seq<char>, JsonVal)>, name: Seq<char>) -> Option<
    Seq<Seq<char>>,
> {
    match spec_object_get(m, name) {
        Some(JsonVal::Arr(a)) => spec_str_list(a),
        _ => None,
    }
}

/// The `b64` toggle of a header: false only when `crit` is an array of
/// strings listing `b64` and the `b64` claim is the boolean false.
pub open spec fn spec_b64_flag(m: Seq<(Seq<char>, JsonVal)>) -> bool {
    match spec_strarr_claim(m, "crit"@) {
        Some(names) => if names.contains("b64"@) {
            match spec_bool_claim(m, "b64"@) {
                Some(b) => b,
                None => true,
            }
        } else {
            true
        },
        None => true,
    }
}

/// Lookup distributes over concatenation.
pub proof fn lemma_object_get_concat(
    a: Seq<(Seq<char>, JsonVal)>,
    b: Seq<(Seq<char>, JsonVal)>,
    key: Seq<char>,
)
    ensures
        spec_object_get(a + b, key) == if spec_object_get(a, key) is Some {
            spec_object_get(a, key)
        } else {
            spec_object_get(b, key)
        },
    decreases a.len(),
{
    if a.len() == 0 {
        assert(a + b =~= b);
    } else {
        lemma_object_get_concat(a.drop_first(), b, key);
        assert((a + b).drop_first() =~= a.drop_first() + b);
        assert((a + b)[0] == a[0]);
    }
}

/// Removal really removes the key and nothing else.
pub proof fn lemma_remove_key(m: Seq<(Seq<char>, JsonVal)>, key: Seq<char>)
    ensures
        spec_object_get(spec_remove_key(m, key), key) is None,
        forall|k: Seq<char>|
            k != key ==> #[trigger] spec_object_get(spec_remove_key(m, key), k)
                == spec_object_get(m, k),
        keys_unique(m) ==> keys_unique(spec_remove_key(m, key)),
        entries_wf(m) ==> entries_wf(spec_remove_key(m, key)),
        forall|i: int|
            0 <= i < spec_remove_key(m, key).len() ==> exists|j: int|
                0 <= j < m.len() && #[trigger] spec_remove_key(m, key)[i] == m[j],
    decreases m.len(),
{
    if m.len() > 0 {
        lemma_remove_key(m.drop_first(), key);
        let rest = spec_remove_key(m.drop_first(), key);
        if m[0].0 == key {
            assert forall|i: int| 0 <= i < rest.len() implies exists|j: int|
                0 <= j < m.len() && #[trigger] rest[i] == m[j] by {
                let jj = choose|j: int| 0 <= j < m.drop_first().len() && rest[i] == m.drop_first()[
                    j
                ];
                assert(m.drop_first()[jj] == m[jj + 1]);
            }
        } else {
            let whole = seq![m[0]] + rest;
            assert(whole[0] == m[0]);
            assert(whole.drop_first() =~= rest);
            assert forall|k: Seq<char>| k != key implies #[trigger] spec_object_get(whole, k)
                == spec_object_get(m, k) by {
                assert(spec_object_get(whole, k) == if m[0].0 == k {
                    Some(m[0].1)
                } else {
                    spec_object_get(rest, k)
                });
            }
            assert forall|i: int| 0 <= i < whole.len() implies exists|j: int|
                0 <= j < m.len() && #[trigger] whole[i] == m[j] by {
                if i == 0 {
                    assert(whole[0] == m[0]);
                } else {
                    let jj = choose|j: int|
                        0 <= j < m.drop_first().len() && rest[i - 1] == m.drop_first()[j];
                    assert(m.drop_first()[jj] == m[jj + 1]);
                    assert(whole[i] == rest[i - 1]);
                }
            }
            if keys_unique(m) {
                assert forall|i: int, j: int| 0 <= i < j < whole.len() implies (
                #[trigger] whole[i]).0 != (#[trigger] whole[j]).0 by {
                    if i == 0 {
                        let jj = choose|jx: int|
                            0 <= jx < m.drop_first().len() && rest[j - 1] == m.drop_first()[jx];
                        assert(m.drop_first()[jj] == m[jj + 1]);
                        assert(whole[j] == rest[j - 1]);
                        assert(m[0].0 != m[jj + 1].0);
                    } else {
                        assert(whole[i] == rest[i - 1] && whole[j] == rest[j - 1]);
                        assert(keys_unique(rest));
                    }
                }
            }
        }
    }
}

/// What `spec_set_claim` does to lookups, uniqueness and well-formedness.
pub proof fn lemma_set_claim(m: Seq<(Seq<char>, JsonVal)>, key: Seq<char>, v: JsonVal)
    ensures
        spec_object_get(spec_set_claim(m, key, v), key) == Some(v),
        forall|k: Seq<char>|
            k != key ==> #[trigger] spec_object_get(spec_set_claim(m, key, v), k)
                == spec_object_get(m, k),
        keys_unique(m) ==> keys_unique(spec_set_claim(m, key, v)),
        entries_wf(m) && json_wf(v) ==> entries_wf(spec_set_claim(m, key, v)),
{
    lemma_remove_key(m, key);
    let removed = spec_remove_key(m, key);
    let tail = seq![(key, v)];
    lemma_object_get_concat(removed, tail, key);
    crate::json::lemma_object_get_has(removed, key);
    assert(spec_object_get(tail, key) == Some(v));
    assert forall|k: Seq<char>| k != key implies #[trigger] spec_object_get(
        spec_set_claim(m, key, v),
        k,
    ) == spec_object_get(m, k) by {
        lemma_object_get_concat(removed, tail, k);
        assert(tail[0] == (key, v));
        assert(tail.drop_first() =~= Seq::<(Seq<char>, JsonVal)>::empty());
        assert(spec_object_get(tail.drop_first(), k) is None);
        assert(spec_object_get(tail, k) is None);
        crate::json::lemma_object_get_has(removed, k);
    }
    if keys_unique(m) {
        let whole = removed + tail;
        crate::json::lemma_object_get_has(removed, key);
        assert forall|i: int, j: int| 0 <= i < j < whole.len() implies (#[trigger] whole[i]).0 != (
        #[trigger] whole[j]).0 by {
            if j == whole.len() - 1 {
                if whole[i].0 == key {
                    assert(spec_object_has(removed, key));
                }
            } else {
                assert(whole[i] == removed[i] && whole[j] == removed[j]);
                assert(keys_unique(removed));
            }
        }
    }
}

/// Remove every entry named `key` and append `(key, value)`.
#[verifier::loop_isolation(false)]
fn claims_set(claims: &mut Vec<(String, JsonValue)>, name: &str, value: JsonValue)
    ensures
        jview_obj(final(claims)@) == spec_set_claim(jview_obj(old(claims)@), name@, jview(value)),
{
    proof {
        lemma_jview_obj(old(claims)@);
    }
    let ghost orig = jview_obj(old(claims)@);
    let mut out: Vec<(String, JsonValue)> = Vec::new();
    let n = claims.len();
    let mut i: usize = 0;
    while i < n
        invariant
            n == old(claims)@.len(),
            claims@ == old(claims)@,
            0 <= i <= n,
            jview_obj(out@) == spec_remove_key(orig.take(i as int), name@),
        decreases n - i,
    {
        proof {
            lemma_remove_take_snoc(orig, name@, i as int);
        }
        let keep = !str_eq(claims[i].0.as_str(), name);
        if keep {
            let ghost before = out@;
            let cloned_key = claims[i].0.clone();
            let cloned_val = clone_value(&claims[i].1);
            let ghost ck = cloned_key@;
            let ghost cv = jview(cloned_val);
            out.push((cloned_key, cloned_val));
            proof {
                lemma_jview_obj_snoc(out@, before);
                assert((ck, cv) == orig[i as int]);
                assert(jview_obj(out@) =~= spec_remove_key(orig.take(i as int), name@) + seq![
                    orig[i as int],
                ]);
            }
        }
        i += 1;
    }
    proof {
        assert(orig.take(n as int) =~= orig);
    }
    let ghost before = out@;
    let owned_name = name.to_owned();
    let ghost gk = owned_name@;
    let ghost gv = jview(value);
    out.push((owned_name, value));
    proof {
        lemma_jview_obj_snoc(out@, before);
        assert(jview_obj(out@) =~= spec_set_claim(orig, name@, gv));
    }
    *claims = out;
}

/// Appending one pair appends its view.
proof fn lemma_jview_obj_snoc(m2: Seq<(String, JsonValue)>, m: Seq<(String, JsonValue)>)
    requires
        m2.len() == m.len() + 1,
        m2 == m.push(m2[m.len() as int]),
    ensures
        jview_obj(m2) =~= jview_obj(m) + seq![(m2[m.len() as int].0@, jview(m2[m.len() as int].1))],
{
    lemma_jview_obj(m2);
    lemma_jview_obj(m);
    assert forall|i: int| 0 <= i < m.len() implies jview_obj(m2)[i] == jview_obj(m)[i] by {
        assert(m2[i] == m[i]);
    }
}

/// One step of removal over a growing prefix.
proof fn lemma_remove_take_snoc(m: Seq<(Seq<char>, JsonVal)>, key: Seq<char>, i: int)
    requires
        0 <= i < m.len(),
    ensures
        spec_remove_key(m.take(i + 1), key) == if m[i].0 == key {
            spec_remove_key(m.take(i), key)
        } else {
            spec_remove_key(m.take(i), key) + seq![m[i]]
        },
    decreases i,
{
    if i == 0 {
        assert(m.take(1) =~= seq![m[0]]);
        assert(m.take(1).drop_first() =~= Seq::empty());
        assert(m.take(0) =~= Seq::empty());
        if m[0].0 != key {
            assert(spec_remove_key(Seq::<(Seq<char>, JsonVal)>::empty(), key)
                =~= Seq::<(Seq<char>, JsonVal)>::empty());
            assert(spec_remove_key(m.take(1), key) == seq![m.take(1)[0]] + spec_remove_key(
                m.take(1).drop_first(),
                key,
            ));
            assert(spec_remove_key(m.take(1), key) =~= seq![m[0]]);
        }
    } else {
        lemma_remove_take_snoc(m.drop_first(), key, i - 1);
        assert(m.take(i + 1).drop_first() =~= m.drop_first().take(i));
        assert(m.take(i).drop_first() =~= m.drop_first().take(i - 1));
        assert(m.take(i + 1)[0] == m[0]);
        assert(m.take(i)[0] == m[0]);
        assert(m.drop_first()[i - 1] == m[i]);
        if m[0].0 == key {
        } else {
            if m[i].0 == key {
            } else {
                assert(seq![m[0]] + (spec_remove_key(m.drop_first().take(i - 1), key) + seq![m[i]])
                    =~= (seq![m[0]] + spec_remove_key(m.drop_first().take(i - 1), key)) + seq![
                    m[i],
                ]);
            }
        }
    }
}

} // verus!

verus! {

/// Does any of the first `upto` entries carry this name?
#[verifier::loop_isolation(false)]
fn prefix_has_key(claims: &Vec<(String, JsonValue)>, upto: usize, key: &str) -> (r: bool)
    requires
        upto <= claims@.len(),
    ensures
        r == exists|i: int| 0 <= i < upto && (#[trigger] claims@[i]).0@ == key@,
{
    let mut i: usize = 0;
    while i < upto
        invariant
            0 <= i <= upto,
            forall|j: int| 0 <= j < i ==> (#[trigger] claims@[j]).0@ != key@,
        decreases upto - i,
    {
        if str_eq(claims[i].0.as_str(), key) {
            return true;
        }
        i += 1;
    }
    false
}

/// Typed string read of a claim value.
fn value_as_string(v: &JsonValue) -> (r: Option<&String>)
    ensures
        match r {
            Some(s) => jview(*v) == JsonVal::Str(s@),
            None => !(jview(*v) is Str),
        },
{
    match v {
        JsonValue::String(s) => Some(s),
        _ => None,
    }
}

/// Validation shared by header constructors: names unique, values well
/// formed.
#[verifier::loop_isolation(false)]
pub(crate) fn check_claim_map(map: &Vec<(String, JsonValue)>) -> (r: bool)
    ensures
        r == (keys_unique(jview_obj(map@)) && entries_wf(jview_obj(map@))),
{
    proof {
        lemma_jview_obj(map@);
    }
    let n = map.len();
    let mut i: usize = 0;
    while i < n
        invariant
            n == map@.len(),
            0 <= i <= n,
            forall|p: int, q: int|
                0 <= p < q < i ==> (#[trigger] map@[p]).0@ != (#[trigger] map@[q]).0@,
            forall|p: int| 0 <= p < i ==> json_wf(jview((#[trigger] map@[p]).1)),
        decreases n - i,
    {
        if prefix_has_key(map, i, map[i].0.as_str()) {
            proof {
                let p = choose|p: int| 0 <= p < i && (#[trigger] map@[p]).0@ == map@[i as int].0@;
                assert(jview_obj(map@)[p].0 == jview_obj(map@)[i as int].0);
                assert(!keys_unique(jview_obj(map@)));
            }
            return false;
        }
        if !check_json_wf(&map[i].1) {
            proof {
                assert(jview_obj(map@)[i as int].1 == jview(map@[i as int].1));
                assert(!entries_wf(jview_obj(map@)));
            }
            return false;
        }
        i += 1;
    }
    proof {
        assert forall|p: int, q: int| 0 <= p < q < jview_obj(map@).len() implies (
        #[trigger] jview_obj(map@)[p]).0 != (#[trigger] jview_obj(map@)[q]).0 by {
            assert(jview_obj(map@)[p].0 == map@[p].0@ && jview_obj(map@)[q].0 == map@[q].0@);
        }
        assert forall|p: int| 0 <= p < jview_obj(map@).len() implies json_wf(
            (#[trigger] jview_obj(map@)[p]).1,
        ) by {
            assert(jview_obj(map@)[p].1 == jview(map@[p].1));
        }
    }
    true
}

/// Typed JWS header: an ordered claim map with unique names.
#[derive(Debug)]
pub struct JwsHeader {
    claims: Vec<(String, JsonValue)>,
}

impl JwsHeader {
    /// The claim entries, as named mathematical values.
    pub closed spec fn entries(&self) -> Seq<(Seq<char>, JsonVal)> {
        jview_obj(self.claims@)
    }

    /// Validity: unique names, well-formed values.
    pub open spec fn wf(&self) -> bool {
        keys_unique(self.entries()) && entries_wf(self.entries())
    }

    /// An empty header.
    pub fn new() -> (r: Self)
        ensures
            r.entries() == Seq::<(Seq<char>, JsonVal)>::empty(),
            r.wf(),
    {
        let r = JwsHeader { claims: Vec::new() };
        proof {
            lemma_jview_obj(r.claims@);
            assert(r.entries() =~= Seq::<(Seq<char>, JsonVal)>::empty());
        }
        r
    }

    /// Build a header from a claim map.  Fails exactly when a name repeats
    /// or a value is malformed.
    pub fn from_map(map: Vec<(String, JsonValue)>) -> (r: Result<Self, JoseError>)
        ensures
            match r {
                Ok(h) => h.entries() == jview_obj(map@) && h.wf(),
                Err(e) => !(keys_unique(jview_obj(map@)) && entries_wf(jview_obj(map@)))
                    && e is InvalidJwtFormat,
            },
            r is Ok <==> keys_unique(jview_obj(map@)) && entries_wf(jview_obj(map@)),
    {
        if check_claim_map(&map) {
            Ok(JwsHeader { claims: map })
        } else {
            Err(JoseError::InvalidJwtFormat(String::from_str(
                "a header claim map must have unique names and well-formed values",
            )))
        }
    }

    /// The claim map itself.
    pub fn claims_set(&self) -> (r: &Vec<(String, JsonValue)>)
        ensures
            jview_obj(r@) == self.entries(),
    {
        &self.claims
    }

    /// Read one claim.
    pub fn claim<'a>(&'a self, name: &str) -> (r: Option<&'a JsonValue>)
        ensures
            match r {
                Some(v) => spec_object_get(self.entries(), name@) == Some(jview(*v)),
                None => spec_object_get(self.entries(), name@) is None,
            },
    {
        object_get(&self.claims, name)
    }

    /// Set one claim, replacing any previous entry of that name.
    pub fn set_claim(&mut self, name: &str, value: JsonValue)
        requires
            json_wf(jview(value)),
        ensures
            final(self).entries() == spec_set_claim(old(self).entries(), name@, jview(value)),
            old(self).wf() ==> final(self).wf(),
    {
        let ghost v = jview(value);
        claims_set(&mut self.claims, name, value);
        proof {
            lemma_set_claim(old(self).entries(), name@, v);
        }
    }

    /// Set the `alg` claim.
    pub fn set_algorithm(&mut self, value: &str)
        ensures
            final(self).entries() == spec_set_claim(
                old(self).entries(),
                "alg"@,
                JsonVal::Str(value@),
            ),
            old(self).wf() ==> final(self).wf(),
    {
        self.set_claim("alg", JsonValue::String(value.to_owned()));
    }

    /// The `alg` claim, when it is a string.
    pub fn algorithm(&self) -> (r: Option<&String>)
        ensures
            match r {
                Some(s) => spec_str_claim(self.entries(), "alg"@) == Some(s@),
                None => spec_str_claim(self.entries(), "alg"@) is None,
            },
    {
        match self.claim("alg") {
            Some(v) => value_as_string(v),
            None => None,
        }
    }

    /// Set the `kid` claim.
    pub fn set_key_id(&mut self, value: &str)
        ensures
            final(self).entries() == spec_set_claim(
                old(self).entries(),
                "kid"@,
                JsonVal::Str(value@),
            ),
            old(self).wf() ==> final(self).wf(),
    {
        self.set_claim("kid", JsonValue::String(value.to_owned()));
    }

    /// The `kid` claim, when it is a string.
    pub fn key_id(&self) -> (r: Option<&String>)
        ensures
            match r {
                Some(s) => spec_str_claim(self.entries(), "kid"@) == Some(s@),
                None => spec_str_claim(self.entries(), "kid"@) is None,
            },
    {
        match self.claim("kid") {
            Some(v) => value_as_string(v),
            None => None,
        }
    }

    /// Set the `b64` claim.
    pub fn set_base64url_encode_payload(&mut self, value: bool)
        ensures
            final(self).entries() == spec_set_claim(
                old(self).entries(),
                "b64"@,
                JsonVal::Bool(value),
            ),
            old(self).wf() ==> final(self).wf(),
    {
        self.set_claim("b64", JsonValue::Bool(value));
    }

    /// The `b64` claim, when it is a boolean.
    pub fn base64url_encode_payload(&self) -> (r: Option<bool>)
        ensures
            r == spec_bool_claim(self.entries(), "b64"@),
    {
        match self.claim("b64") {
            Some(v) => match v {
                JsonValue::Bool(b) => Some(*b),
                _ => None,
            },
            None => None,
        }
    }

    /// Set the `crit` claim to an array of names.
    #[verifier::loop_isolation(false)]
    pub fn set_critical(&mut self, names: &Vec<String>)
        ensures
            final(self).entries() == spec_set_claim(
                old(self).entries(),
                "crit"@,
                JsonVal::Arr(names@.map_values(|s: String| JsonVal::Str(s@))),
            ),
            old(self).wf() ==> final(self).wf(),
    {
        let ghost target = names@.map_values(|s: String| JsonVal::Str(s@));
        let mut items: Vec<JsonValue> = Vec::new();
        let n = names.len();
        let mut i: usize = 0;
        while i < n
            invariant
                n == names@.len(),
                0 <= i <= n,
                items@.len() == i,
                forall|j: int| 0 <= j < i ==> jview(#[trigger] items@[j]) == target[j],
            decreases n - i,
        {
            items.push(JsonValue::String(names[i].clone()));
            i += 1;
        }
        let ghost gitems = items@;
        let value = JsonValue::Array(items);
        proof {
            assert(value->Array_0@ == gitems);
            crate::json::lemma_jview_seq(gitems);
            assert forall|j: int| 0 <= j < gitems.len() implies crate::json::jview_seq(gitems)[j]
                == target[j] by {
                assert(crate::json::jview_seq(gitems)[j] == jview(gitems[j]));
            }
            assert(crate::json::jview_seq(gitems) =~= target);
            assert(jview(value) == JsonVal::Arr(target));
            assert forall|j: int| 0 <= j < target.len() implies json_wf(#[trigger] target[j]) by {
                assert(target[j] == JsonVal::Str(names@[j]@));
            }
        }
        self.set_claim("crit", value);
    }

    /// The `crit` claim, when it is an array of strings.
    #[verifier::loop_isolation(false)]
    pub fn critical(&self) -> (r: Option<Vec<String>>)
        ensures
            match r {
                Some(v) => spec_strarr_claim(self.entries(), "crit"@) == Some(
                    v@.map_values(|s: String| s@),
                ),
                None => spec_strarr_claim(self.entries(), "crit"@) is None,
            },
    {
        let v = match self.claim("crit") {
            Some(v) => v,
            None => {
                return None;
            },
        };
        let arr = match v {
            JsonValue::Array(a) => a,
            _ => {
                return None;
            },
        };
        proof {
            crate::json::lemma_jview_seq(arr@);
            assert(jview(*v) == JsonVal::Arr(crate::json::jview_seq(arr@)));
        }
        let ghost items = crate::json::jview_seq(arr@);
        let mut out: Vec<String> = Vec::new();
        let n = arr.len();
        let mut i: usize = 0;
        while i < n
            invariant
                n == arr@.len(),
                0 <= i <= n,
                out@.len() == i,
                forall|j: int| 0 <= j < i ==> items[j] == JsonVal::Str((#[trigger] out@[j])@),
            decreases n - i,
        {
            match value_as_string(&arr[i]) {
                Some(s) => {
                    out.push(s.clone());
                },
                None => {
                    proof {
                        lemma_str_list_some(items);
                    }
                    return None;
                },
            }
            i += 1;
        }
        proof {
            assert forall|j: int| 0 <= j < items.len() implies (#[trigger] items[j]) is Str by {
                assert(items[j] == JsonVal::Str(out@[j]@));
            }
            lemma_str_list_some(items);
            let l = spec_str_list(items).unwrap();
            assert forall|j: int| 0 <= j < l.len() implies l[j] == out@.map_values(|s: String| s@)[j]
            by {
                assert(items[j] == JsonVal::Str(l[j]));
                assert(items[j] == JsonVal::Str(out@[j]@));
            }
            assert(l =~= out@.map_values(|s: String| s@));
            assert(spec_strarr_claim(self.entries(), "crit"@) == Some(l));
        }
        Some(out)
    }
}

/// `spec_str_list` succeeds exactly when every element is a string, and
/// then returns the contents in order.
pub proof fn lemma_str_list_some(a: Seq<JsonVal>)
    ensures
        spec_str_list(a) is Some <==> (forall|i: int| 0 <= i < a.len() ==> (#[trigger] a[i]) is Str),
        spec_str_list(a) matches Some(l) ==> l.len() == a.len() && (forall|i: int|
            0 <= i < a.len() ==> #[trigger] a[i] == JsonVal::Str(l[i])),
    decreases a.len(),
{
    if a.len() > 0 {
        lemma_str_list_some(a.drop_first());
        if forall|i: int| 0 <= i < a.len() ==> (#[trigger] a[i]) is Str {
            assert forall|i: int| 0 <= i < a.drop_first().len() implies (
            #[trigger] a.drop_first()[i]) is Str by {
                assert(a.drop_first()[i] == a[i + 1]);
            }
            let rest = spec_str_list(a.drop_first()).unwrap();
            let l = spec_str_list(a).unwrap();
            assert(l =~= seq![a[0]->Str_0] + rest);
            assert forall|i: int| 0 <= i < a.len() implies #[trigger] a[i] == JsonVal::Str(
                l[i],
            ) by {
                if i > 0 {
                    assert(a.drop_first()[i - 1] == a[i]);
                }
            }
        } else {
            let w = choose|i: int| 0 <= i < a.len() && !((#[trigger] a[i]) is Str);
            if w == 0 {
            } else {
                assert(a.drop_first()[w - 1] == a[w]);
                assert(spec_str_list(a.drop_first()) is None);
            }
        }
    }
}

} // verus!

verus! {

impl JwsHeader {
    /// An identical copy.
    #[verifier::loop_isolation(false)]
    pub fn clone_header(&self) -> (r: Self)
        ensures
            r.entries() == self.entries(),
            r.wf() == self.wf(),
    {
        let mut claims: Vec<(String, JsonValue)> = Vec::new();
        let n = self.claims.len();
        let mut i: usize = 0;
        while i < n
            invariant
                n == self.claims@.len(),
                0 <= i <= n,
                claims@.len() == i,
                forall|j: int|
                    0 <= j < i ==> (#[trigger] claims@[j]).0@ == self.claims@[j].0@ && jview(
                        claims@[j].1,
                    ) == jview(self.claims@[j].1),
            decreases n - i,
        {
            let entry = &self.claims[i];
            claims.push((entry.0.clone(), clone_value(&entry.1)));
            i += 1;
        }
        let r = JwsHeader { claims };
        proof {
            lemma_jview_obj(r.claims@);
            lemma_jview_obj(self.claims@);
            assert forall|j: int| 0 <= j < n implies jview_obj(r.claims@)[j] == jview_obj(
                self.claims@,
            )[j] by {
                assert(jview_obj(r.claims@)[j] == (r.claims@[j].0@, jview(r.claims@[j].1)));
                assert(jview_obj(self.claims@)[j] == (self.claims@[j].0@, jview(
                    self.claims@[j].1,
                )));
            }
            assert(jview_obj(r.claims@) =~= jview_obj(self.claims@));
        }
        r
    }

    /// Combine this (protected) header with an unprotected one.  Fails
    /// exactly when the two share a claim name; on success the result
    /// lists the protected entries first.
    #[verifier::loop_isolation(false)]
    pub fn merge(&self, other: &JwsHeader) -> (r: Result<Self, JoseError>)
        requires
            self.wf(),
            other.wf(),
        ensures
            match r {
                Ok(h) => h.entries() == self.entries() + other.entries() && h.wf(),
                Err(e) => e is InvalidJwtFormat,
            },
            r is Ok <==> (forall|i: int|
                0 <= i < other.entries().len() ==> !spec_object_has(
                    self.entries(),
                    (#[trigger] other.entries()[i]).0,
                )),
    {
        let merged = self.clone_header();
        let mut claims = merged.claims;
        let ghost base = self.entries();
        proof {
            lemma_jview_obj(other.claims@);
        }
        let n = other.claims.len();
        let mut i: usize = 0;
        while i < n
            invariant
                n == other.claims@.len(),
                0 <= i <= n,
                jview_obj(claims@) =~= base + other.entries().take(i as int),
                forall|j: int|
                    0 <= j < i ==> !spec_object_has(base, (#[trigger] other.entries()[j]).0),
            decreases n - i,
        {
            let entry = &other.claims[i];
            if prefix_has_key(&self.claims, self.claims.len(), entry.0.as_str()) {
                proof {
                    lemma_jview_obj(self.claims@);
                    let p = choose|p: int|
                        0 <= p < self.claims@.len() && (#[trigger] self.claims@[p]).0@
                            == entry.0@;
                    assert(base[p] == (self.claims@[p].0@, jview(self.claims@[p].1)));
                    assert(base[p].0 == entry.0@);
                    assert(other.entries()[i as int] == (other.claims@[i as int].0@, jview(
                        other.claims@[i as int].1,
                    )));
                    assert(spec_object_has(base, other.entries()[i as int].0));
                }
                return Err(JoseError::InvalidJwtFormat(String::from_str(
                    "a claim name occurs in both the protected and the unprotected header",
                )));
            }
            let ghost before = claims@;
            let cloned_key = entry.0.clone();
            let cloned_val = clone_value(&entry.1);
            let ghost ck = cloned_key@;
            let ghost cv = jview(cloned_val);
            claims.push((cloned_key, cloned_val));
            proof {
                lemma_jview_obj_snoc(claims@, before);
                assert(!spec_object_has(base, ck)) by {
                    if spec_object_has(base, ck) {
                        let p = choose|p: int|
                            0 <= p < base.len() && (#[trigger] base[p]).0 == ck;
                        lemma_jview_obj(self.claims@);
                        assert(self.claims@[p].0@ == ck);
                    }
                }
                assert((ck, cv) == other.entries()[i as int]);
                assert(other.entries().take(i as int + 1) =~= other.entries().take(i as int)
                    + seq![other.entries()[i as int]]);
                assert(jview_obj(claims@) =~= base + other.entries().take(i as int + 1));
            }
            i += 1;
        }
        let r = JwsHeader { claims };
        proof {
            assert(other.entries().take(n as int) =~= other.entries());
            assert(r.entries() =~= base + other.entries());
            assert forall|p: int, q: int| 0 <= p < q < r.entries().len() implies (
            #[trigger] r.entries()[p]).0 != (#[trigger] r.entries()[q]).0 by {
                let bl = base.len() as int;
                if p < bl && q >= bl {
                    assert(r.entries()[q] == other.entries()[q - bl]);
                    if base[p].0 == other.entries()[q - bl].0 {
                        assert(spec_object_has(base, other.entries()[q - bl].0));
                    }
                } else if p >= bl {
                    assert(r.entries()[p] == other.entries()[p - bl]);
                    assert(r.entries()[q] == other.entries()[q - bl]);
                    assert(keys_unique(other.entries()));
                } else {
                    assert(keys_unique(base));
                }
            }
            assert forall|p: int| 0 <= p < r.entries().len() implies json_wf(
                (#[trigger] r.entries()[p]).1,
            ) by {
                let bl = base.len() as int;
                if p >= bl {
                    assert(r.entries()[p] == other.entries()[p - bl]);
                    assert(entries_wf(other.entries()));
                } else {
                    assert(entries_wf(base));
                }
            }
        }
        Ok(r)
    }
}

/// Typed JWE header: the same claim map, with the accessors the JWE side
/// needs.
#[derive(Debug)]
pub struct JweHeader {
    claims: Vec<(String, JsonValue)>,
}

impl JweHeader {
    /// The claim entries, as named mathematical values.
    pub closed spec fn entries(&self) -> Seq<(Seq<char>, JsonVal)> {
        jview_obj(self.claims@)
    }

    /// Validity: unique names, well-formed values.
    pub open spec fn wf(&self) -> bool {
        keys_unique(self.entries()) && entries_wf(self.entries())
    }

    /// An empty header.
    pub fn new() -> (r: Self)
        ensures
            r.entries() == Seq::<(Seq<char>, JsonVal)>::empty(),
            r.wf(),
    {
        let r = JweHeader { claims: Vec::new() };
        proof {
            lemma_jview_obj(r.claims@);
            assert(r.entries() =~= Seq::<(Seq<char>, JsonVal)>::empty());
        }
        r
    }

    /// Build a header from a claim map.  Fails exactly when a name repeats
    /// or a value is malformed.
    pub fn from_map(map: Vec<(String, JsonValue)>) -> (r: Result<Self, JoseError>)
        ensures
            match r {
                Ok(h) => h.entries() == jview_obj(map@) && h.wf(),
                Err(e) => !(keys_unique(jview_obj(map@)) && entries_wf(jview_obj(map@)))
                    && e is InvalidJwtFormat,
            },
            r is Ok <==> keys_unique(jview_obj(map@)) && entries_wf(jview_obj(map@)),
    {
        if check_claim_map(&map) {
            Ok(JweHeader { claims: map })
        } else {
            Err(JoseError::InvalidJwtFormat(String::from_str(
                "a header claim map must have unique names and well-formed values",
            )))
        }
    }

    /// The claim map itself.
    pub fn claims_set(&self) -> (r: &Vec<(String, JsonValue)>)
        ensures
            jview_obj(r@) == self.entries(),
    {
        &self.claims
    }

    /// Read one claim.
    pub fn claim<'a>(&'a self, name: &str) -> (r: Option<&'a JsonValue>)
        ensures
            match r {
                Some(v) => spec_object_get(self.entries(), name@) == Some(jview(*v)),
                None => spec_object_get(self.entries(), name@) is None,
            },
    {
        object_get(&self.claims, name)
    }

    /// Set one claim, replacing any previous entry of that name.
    pub fn set_claim(&mut self, name: &str, value: JsonValue)
        requires
            json_wf(jview(value)),
        ensures
            final(self).entries() == spec_set_claim(old(self).entries(), name@, jview(value)),
            old(self).wf() ==> final(self).wf(),
    {
        let ghost v = jview(value);
        claims_set(&mut self.claims, name, value);
        proof {
            lemma_set_claim(old(self).entries(), name@, v);
        }
    }

    /// Set the `alg` claim.
    pub fn set_algorithm(&mut self, value: &str)
        ensures
            final(self).entries() == spec_set_claim(
                old(self).entries(),
                "alg"@,
                JsonVal::Str(value@),
            ),
            old(self).wf() ==> final(self).wf(),
    {
        self.set_claim("alg", JsonValue::String(value.to_owned()));
    }

    /// The `alg` claim, when it is a string.
    pub fn algorithm(&self) -> (r: Option<&String>)
        ensures
            match r {
                Some(s) => spec_str_claim(self.entries(), "alg"@) == Some(s@),
                None => spec_str_claim(self.entries(), "alg"@) is None,
            },
    {
        match self.claim("alg") {
            Some(v) => value_as_string(v),
            None => None,
        }
    }
}

} // verus!

verus! {

impl JwsHeader {
    /// The JSON text of this header's claim map.
    pub fn to_json(&self) -> (r: Vec<u8>)
        requires
            self.wf(),
        ensures
            r@ == crate::json::json_emit(JsonVal::Obj(self.entries())),
    {
        let copy = self.clone_header();
        let v = JsonValue::Object(copy.claims);
        proof {
            assert(jview(v) == JsonVal::Obj(self.entries()));
            assert forall|i: int| 0 <= i < self.entries().len() implies json_wf(
                (#[trigger] self.entries()[i]).1,
            ) by {
                assert(entries_wf(self.entries()));
            }
            assert(json_wf(jview(v)));
        }
        crate::json::to_json_bytes(&v)
    }
}

} // verus!

verus! {

impl JwsHeader {
    /// This header's claim map as a JSON value.
    pub fn to_value(&self) -> (r: JsonValue)
        ensures
            jview(r) == JsonVal::Obj(self.entries()),
    {
        let copy = self.clone_header();
        let r = JsonValue::Object(copy.claims);
        proof {
            assert(jview(r) == JsonVal::Obj(self.entries()));
        }
        r
    }
}

} // verus!

verus! {

/// A deep copy of a claim map, entry by entry.
#[verifier::loop_isolation(false)]
pub fn clone_claim_map(m: &Vec<(String, JsonValue)>) -> (r: Vec<(String, JsonValue)>)
    ensures
        jview_obj(r@) == jview_obj(m@),
{
    let mut out: Vec<(String, JsonValue)> = Vec::new();
    let n = m.len();
    let mut i: usize = 0;
    while i < n
        invariant
            n == m@.len(),
            0 <= i <= n,
            out@.len() == i,
            forall|j: int|
                0 <= j < i ==> (#[trigger] out@[j]).0@ == m@[j].0@ && jview(out@[j].1) == jview(
                    m@[j].1,
                ),
        decreases n - i,
    {
        let entry = &m[i];
        out.push((entry.0.clone(), clone_value(&entry.1)));
        i += 1;
    }
    proof {
        lemma_jview_obj(out@);
        lemma_jview_obj(m@);
        assert forall|j: int| 0 <= j < n implies jview_obj(out@)[j] == jview_obj(m@)[j] by {
            assert(jview_obj(out@)[j] == (out@[j].0@, jview(out@[j].1)));
            assert(jview_obj(m@)[j] == (m@[j].0@, jview(m@[j].1)));
        }
        assert(jview_obj(out@) =~= jview_obj(m@));
    }
    out
}

} // verus!
