//! JSON model used by headers and wire envelopes.  Values are held in this
//! crate's own tree so that the envelope logic can be reasoned about over
//! plain data.  Emission to JSON text is implemented and specified here;
//! parsing of JSON text is delegated to `serde_json` behind trusted items.
use vstd::prelude::*;

verus! {

broadcast use vstd::seq::group_seq_axioms, vstd::std_specs::vec::group_vec_axioms;

/// A JSON value.  Numbers are carried as their literal text, since no JOSE
/// rule in this crate interprets them.  Object entries keep their order.
#[derive(Debug)]
pub enum JsonValue {
    Null,
    Bool(bool),
    Number(String),
    String(String),
    Array(Vec<JsonValue>),
    Object(Vec<(String, JsonValue)>),
}

/// The mathematical shape of a JSON value: what contracts speak about.
pub enum JsonVal {
    Null,
    Bool(bool),
    Num(Seq<char>),
    Str(Seq<char>),
    Arr(Seq<JsonVal>),
    Obj(Seq<(Seq<char>, JsonVal)>),
}

/// The view of a held value.
pub open spec fn jview(v: JsonValue) -> JsonVal
    decreases v,
    via jview_decreases
{
    match v {
        JsonValue::Null => JsonVal::Null,
        JsonValue::Bool(b) => JsonVal::Bool(b),
        JsonValue::Number(s) => JsonVal::Num(s@),
        JsonValue::String(s) => JsonVal::Str(s@),
        JsonValue::Array(a) => JsonVal::Arr(jview_seq(a@)),
        JsonValue::Object(m) => JsonVal::Obj(jview_obj(m@)),
    }
}

#[via_fn]
proof fn jview_decreases(v: JsonValue) {
    match v {
        JsonValue::Array(a) => {
            assert(decreases_to!(v => a));
            assert(decreases_to!(a => a@));
        },
        JsonValue::Object(m) => {
            assert(decreases_to!(v => m));
            assert(decreases_to!(m => m@));
        },
        _ => {},
    }
}

/// View of a vector of values.
pub open spec fn jview_seq(a: Seq<JsonValue>) -> Seq<JsonVal>
    decreases a,
{
    if a.len() == 0 {
        Seq::empty()
    } else {
        seq![jview(a[0])] + jview_seq(a.drop_first())
    }
}

/// View of a vector of object entries.
pub open spec fn jview_obj(m: Seq<(String, JsonValue)>) -> Seq<(Seq<char>, JsonVal)>
    decreases m,
{
    if m.len() == 0 {
        Seq::empty()
    } else {
        seq![(m[0].0@, jview(m[0].1))] + jview_obj(m.drop_first())
    }
}

/// Pointwise reading of `jview_seq`.
pub proof fn lemma_jview_seq(a: Seq<JsonValue>)
    ensures
        jview_seq(a).len() == a.len(),
        forall|i: int| 0 <= i < a.len() ==> jview_seq(a)[i] == jview(#[trigger] a[i]),
    decreases a.len(),
{
    if a.len() > 0 {
        lemma_jview_seq(a.drop_first());
        assert forall|i: int| 0 <= i < a.len() implies jview_seq(a)[i] == jview(
            #[trigger] a[i],
        ) by {
            if i > 0 {
                assert(a.drop_first()[i - 1] == a[i]);
            }
        }
    }
}

/// Pointwise reading of `jview_obj`.
pub proof fn lemma_jview_obj(m: Seq<(String, JsonValue)>)
    ensures
        jview_obj(m).len() == m.len(),
        forall|i: int|
            0 <= i < m.len() ==> jview_obj(m)[i] == ((#[trigger] m[i]).0@, jview(m[i].1)),
    decreases m.len(),
{
    if m.len() > 0 {
        lemma_jview_obj(m.drop_first());
        assert forall|i: int| 0 <= i < m.len() implies jview_obj(m)[i] == ((#[trigger] m[i]).0@,
        jview(m[i].1)) by {
            if i > 0 {
                assert(m.drop_first()[i - 1] == m[i]);
            }
        }
    }
}

/// A number literal that is safe to splice into JSON text: nonempty, and
/// drawn from the characters a JSON number grammar can use.
pub open spec fn json_number_wf(s: Seq<char>) -> bool {
    &&& s.len() > 0
    &&& forall|i: int|
        0 <= i < s.len() ==> (('0' <= #[trigger] s[i] && s[i] <= '9') || s[i] == '-' || s[i] == '+'
            || s[i] == '.' || s[i] == 'e' || s[i] == 'E')
}

/// Well-formedness of a value: every number literal in it is safe to emit.
pub open spec fn json_wf(v: JsonVal) -> bool
    decreases v,
{
    match v {
        JsonVal::Null => true,
        JsonVal::Bool(_) => true,
        JsonVal::Num(s) => json_number_wf(s),
        JsonVal::Str(_) => true,
        JsonVal::Arr(a) => forall|i: int| 0 <= i < a.len() ==> json_wf(#[trigger] a[i]),
        JsonVal::Obj(m) => forall|i: int| 0 <= i < m.len() ==> json_wf((#[trigger] m[i]).1),
    }
}

/// Lower-case hexadecimal digit.
pub open spec fn hex_digit(i: int) -> u8 {
    if 0 <= i < 10 {
        (0x30 + i) as u8
    } else if 10 <= i < 16 {
        (0x61 + (i - 10)) as u8
    } else {
        0x30
    }
}

/// The escape `\uXXXX` of a 16-bit code unit.
pub open spec fn escape_unit(u: int) -> Seq<u8> {
    seq![
        0x5C,
        0x75,
        hex_digit((u / 4096) % 16),
        hex_digit((u / 256) % 16),
        hex_digit((u / 16) % 16),
        hex_digit(u % 16),
    ]
}

/// The bytes emitted for one character of a JSON string: printable ASCII is
/// kept, quote and backslash get their two-character escapes, everything
/// else becomes `\uXXXX` (a surrogate pair beyond the basic plane).
pub open spec fn escape_char(c: char) -> Seq<u8> {
    if c == '"' {
        seq![0x5C, 0x22]
    } else if c == '\\' {
        seq![0x5C, 0x5C]
    } else if 0x20 <= (c as int) && (c as int) < 0x7F {
        seq![c as u8]
    } else if (c as int) <= 0xFFFF {
        escape_unit(c as int)
    } else {
        escape_unit(0xD800 + (c as int - 0x10000) / 1024) + escape_unit(
            0xDC00 + (c as int - 0x10000) % 1024,
        )
    }
}

/// The escaped bytes of a whole string body.
pub open spec fn escape_str(s: Seq<char>) -> Seq<u8>
    decreases s.len(),
{
    if s.len() == 0 {
        Seq::empty()
    } else {
        escape_char(s[0]) + escape_str(s.drop_first())
    }
}

/// ASCII bytes of an all-ASCII character sequence.
pub open spec fn ascii_bytes(s: Seq<char>) -> Seq<u8> {
    Seq::new(s.len(), |i: int| s[i] as u8)
}

/// The JSON text of a value, as this crate's emitter writes it: no
/// whitespace, object entries in their held order, strings escaped by
/// `escape_char`.
pub open spec fn json_emit(v: JsonVal) -> Seq<u8>
    decreases v,
{
    match v {
        JsonVal::Null => seq![0x6E, 0x75, 0x6C, 0x6C],
        JsonVal::Bool(b) => if b {
            seq![0x74, 0x72, 0x75, 0x65]
        } else {
            seq![0x66, 0x61, 0x6C, 0x73, 0x65]
        },
        JsonVal::Num(s) => ascii_bytes(s),
        JsonVal::Str(s) => seq![0x22] + escape_str(s) + seq![0x22],
        JsonVal::Arr(a) => seq![0x5B] + json_emit_items(a, 0) + seq![0x5D],
        JsonVal::Obj(m) => seq![0x7B] + json_emit_entries(m, 0) + seq![0x7D],
    }
}

/// Comma-joined emission of the array items from index `i` on.
pub open spec fn json_emit_items(s: Seq<JsonVal>, i: int) -> Seq<u8>
    decreases s, (if i < s.len() { s.len() - i } else { 0 }),
{
    if i < 0 || i >= s.len() {
        Seq::empty()
    } else {
        (if i > 0 {
            seq![0x2C]
        } else {
            Seq::<u8>::empty()
        }) + json_emit(s[i]) + json_emit_items(s, i + 1)
    }
}

/// Comma-joined emission of the object entries from index `i` on.
pub open spec fn json_emit_entries(s: Seq<(Seq<char>, JsonVal)>, i: int) -> Seq<u8>
    decreases s, (if i < s.len() { s.len() - i } else { 0 }),
{
    if i < 0 || i >= s.len() {
        Seq::empty()
    } else {
        (if i > 0 {
            seq![0x2C]
        } else {
            Seq::<u8>::empty()
        }) + seq![0x22] + escape_str(s[i].0) + seq![0x22, 0x3A] + json_emit(s[i].1)
            + json_emit_entries(s, i + 1)
    }
}

/// Emit the escape of one character into `out`.
fn emit_escaped_char(c: char, out: &mut Vec<u8>)
    ensures
        final(out)@ == old(out)@ + escape_char(c),
{
    let u: u32 = c as u32;
    if c == '"' {
        out.push(0x5C);
        out.push(0x22);
    } else if c == '\\' {
        out.push(0x5C);
        out.push(0x5C);
    } else if 0x20 <= u && u < 0x7F {
        out.push(u as u8);
    } else if u <= 0xFFFF {
        emit_unit(u, out);
    } else {
        emit_unit(0xD800 + (u - 0x10000) / 1024, out);
        emit_unit(0xDC00 + (u - 0x10000) % 1024, out);
        assert(out@ == old(out)@ + escape_char(c));
    }
}

/// Emit `\uXXXX` for a 16-bit unit.
fn emit_unit(u: u32, out: &mut Vec<u8>)
    requires
        u <= 0xFFFF,
    ensures
        final(out)@ == old(out)@ + escape_unit(u as int),
{
    out.push(0x5C);
    out.push(0x75);
    out.push(hex_digit_exec((u / 4096) % 16));
    out.push(hex_digit_exec((u / 256) % 16));
    out.push(hex_digit_exec((u / 16) % 16));
    out.push(hex_digit_exec(u % 16));
    assert(out@ =~= old(out)@ + escape_unit(u as int));
}

/// Executable hexadecimal digit.
fn hex_digit_exec(i: u32) -> (r: u8)
    requires
        i < 16,
    ensures
        r == hex_digit(i as int),
{
    if i < 10 {
        0x30 + (i as u8)
    } else {
        0x61 + (i as u8) - 10
    }
}

/// Emit the escaped body of a string into `out`.
fn emit_escaped_str(s: &str, out: &mut Vec<u8>)
    ensures
        final(out)@ == old(out)@ + escape_str(s@),
{
    proof {
        assert(s@.skip(0) =~= s@);
    }
    let n = s.unicode_len();
    let mut i: usize = 0;
    while i < n
        invariant
            n == s@.len(),
            0 <= i <= n,
            old(out)@ + escape_str(s@) == out@ + escape_str(s@.skip(i as int)),
        decreases n - i,
    {
        let c = s.get_char(i);
        proof {
            assert(s@.skip(i as int).drop_first() =~= s@.skip(i as int + 1));
            assert(s@.skip(i as int)[0] == s@[i as int]);
        }
        emit_escaped_char(c, out);
        i += 1;
    }
    proof {
        assert(escape_str(s@.skip(n as int)) =~= Seq::<u8>::empty());
        assert(out@ =~= old(out)@ + escape_str(s@));
    }
}

/// Emit a value into `out` as JSON text.
#[verifier::loop_isolation(false)]
#[verifier::rlimit(60)]
pub fn emit_value(v: &JsonValue, out: &mut Vec<u8>)
    requires
        json_wf(jview(*v)),
    ensures
        final(out)@ == old(out)@ + json_emit(jview(*v)),
    decreases *v,
{
    match v {
        JsonValue::Null => {
            out.push(0x6E);
            out.push(0x75);
            out.push(0x6C);
            out.push(0x6C);
            assert(out@ =~= old(out)@ + json_emit(jview(*v)));
        },
        JsonValue::Bool(b) => {
            if *b {
                out.push(0x74);
                out.push(0x72);
                out.push(0x75);
                out.push(0x65);
            } else {
                out.push(0x66);
                out.push(0x61);
                out.push(0x6C);
                out.push(0x73);
                out.push(0x65);
            }
            assert(out@ =~= old(out)@ + json_emit(jview(*v)));
        },
        JsonValue::Number(s) => {
            let s_ref = s.as_str();
            proof {
                assert(vstd::utf8::is_ascii_chars(s_ref@));
            }
            emit_ascii_str(s_ref, out);
            assert(out@ =~= old(out)@ + json_emit(jview(*v)));
        },
        JsonValue::String(s) => {
            out.push(0x22);
            emit_escaped_str(s.as_str(), out);
            out.push(0x22);
            assert(out@ =~= old(out)@ + json_emit(jview(*v)));
        },
        JsonValue::Array(a) => {
            let ghost items = jview_seq(a@);
            proof {
                lemma_jview_seq(a@);
            }
            out.push(0x5B);
            proof {
                assert(out@ =~= old(out)@ + seq![0x5Bu8]);
            }
            let n = a.len();
            let mut i: usize = 0;
            while i < n
                invariant
                    n == a@.len(),
                    items == jview_seq(a@),
                    items.len() == n,
                    json_wf(jview(JsonValue::Array(*a))),
                    0 <= i <= n,
                    old(out)@ + seq![0x5Bu8] + json_emit_items(items, 0) == out@ + json_emit_items(
                        items,
                        i as int,
                    ),
                decreases n - i,
            {
                let ghost out_at_start = out@;
                proof {
                    lemma_jview_seq(a@);
                    assert(jview(JsonValue::Array(*a)) matches JsonVal::Arr(x) && x == items);
                    assert(items[i as int] == jview(a@[i as int]));
                    assert(json_wf(items[i as int]));
                    assert(decreases_to!(*v => (*v)->Array_0));
                    assert(decreases_to!((*v)->Array_0 => (*v)->Array_0@));
                    assert(decreases_to!((*v)->Array_0@ => (*v)->Array_0@[i as int]));
                    assert(decreases_to!(*v => a@[i as int]));
                }
                if i > 0 {
                    out.push(0x2C);
                }
                emit_value(&a[i], out);
                proof {
                    let sep: Seq<u8> = if i > 0 {
                        seq![0x2Cu8]
                    } else {
                        Seq::<u8>::empty()
                    };
                    assert(json_emit_items(items, i as int) == sep + json_emit(items[i as int])
                        + json_emit_items(items, i as int + 1));
                    assert(out@ =~= out_at_start + sep + json_emit(items[i as int]));
                    assert(old(out)@ + seq![0x5Bu8] + json_emit_items(items, 0) =~= out@
                        + json_emit_items(items, i as int + 1));
                }
                i += 1;
            }
            proof {
                assert(json_emit_items(items, n as int) =~= Seq::<u8>::empty());
                assert(out@ =~= old(out)@ + seq![0x5Bu8] + json_emit_items(items, 0));
            }
            out.push(0x5D);
            assert(out@ =~= old(out)@ + json_emit(jview(*v)));
        },
        JsonValue::Object(m) => {
            let ghost entries = jview_obj(m@);
            out.push(0x7B);
            proof {
                lemma_jview_obj(m@);
            }
            let n = m.len();
            let mut i: usize = 0;
            proof {
                assert(out@ =~= old(out)@ + seq![0x7Bu8]);
            }
            while i < n
                invariant
                    n == m@.len(),
                    entries == jview_obj(m@),
                    entries.len() == n,
                    json_wf(jview(JsonValue::Object(*m))),
                    0 <= i <= n,
                    old(out)@ + seq![0x7Bu8] + json_emit_entries(entries, 0) == out@
                        + json_emit_entries(entries, i as int),
                decreases n - i,
            {
                let ghost out_at_start = out@;
                proof {
                    lemma_jview_obj(m@);
                    assert(jview(JsonValue::Object(*m)) matches JsonVal::Obj(x) && x == entries);
                    assert(entries[i as int] == (m@[i as int].0@, jview(m@[i as int].1)));
                    assert(json_wf(entries[i as int].1));
                    assert(decreases_to!(*v => (*v)->Object_0));
                    assert(decreases_to!((*v)->Object_0 => (*v)->Object_0@));
                    assert(decreases_to!((*v)->Object_0@ => (*v)->Object_0@[i as int]));
                    assert(decreases_to!((*v)->Object_0@[i as int] => (*v)->Object_0@[i as int].1));
                    assert(decreases_to!(*v => m@[i as int].1));
                }
                if i > 0 {
                    out.push(0x2C);
                }
                out.push(0x22);
                emit_escaped_str(m[i].0.as_str(), out);
                out.push(0x22);
                out.push(0x3A);
                emit_value(&m[i].1, out);
                proof {
                    let sep: Seq<u8> = if i > 0 {
                        seq![0x2Cu8]
                    } else {
                        Seq::<u8>::empty()
                    };
                    assert(json_emit_entries(entries, i as int) == sep + seq![0x22u8] + escape_str(
                        entries[i as int].0,
                    ) + seq![0x22u8, 0x3Au8] + json_emit(entries[i as int].1) + json_emit_entries(
                        entries,
                        i as int + 1,
                    ));
                    assert(out@ =~= out_at_start + sep + seq![0x22u8] + escape_str(
                        entries[i as int].0,
                    ) + seq![0x22u8, 0x3Au8] + json_emit(entries[i as int].1));
                    assert(old(out)@ + seq![0x7Bu8] + json_emit_entries(entries, 0) =~= out@
                        + json_emit_entries(entries, i as int + 1));
                }
                i += 1;
            }
            proof {
                assert(json_emit_entries(entries, n as int) =~= Seq::<u8>::empty());
                assert(out@ =~= old(out)@ + seq![0x7Bu8] + json_emit_entries(entries, 0));
            }
            out.push(0x7D);
            assert(out@ =~= old(out)@ + json_emit(jview(*v)));
        },
    }
}

/// Emit an all-ASCII string as its bytes.
fn emit_ascii_str(s: &str, out: &mut Vec<u8>)
    requires
        vstd::string::is_ascii(s),
    ensures
        final(out)@ == old(out)@ + ascii_bytes(s@),
{
    proof {
        vstd::string::is_ascii_spec_bytes(s);
    }
    let bytes = s.as_bytes();
    let n = bytes.len();
    let mut i: usize = 0;
    while i < n
        invariant
            n == bytes@.len(),
            bytes@ =~= ascii_bytes(s@),
            0 <= i <= n,
            out@ == old(out)@ + bytes@.take(i as int),
        decreases n - i,
    {
        let b = bytes[i];
        out.push(b);
        proof {
            assert(bytes@.take(i + 1 as int) =~= bytes@.take(i as int) + seq![bytes@[i as int]]);
        }
        i += 1;
    }
    proof {
        assert(bytes@.take(n as int) =~= bytes@);
    }
}

/// Serialize a well-formed value to its JSON text.
pub fn to_json_bytes(v: &JsonValue) -> (r: Vec<u8>)
    requires
        json_wf(jview(*v)),
    ensures
        r@ == json_emit(jview(*v)),
{
    let mut out: Vec<u8> = Vec::new();
    emit_value(v, &mut out);
    out
}

/// Deep copy of a value; the copy has the same view as the original.
#[verifier::loop_isolation(false)]
pub fn clone_value(v: &JsonValue) -> (r: JsonValue)
    ensures
        jview(r) == jview(*v),
    decreases *v,
{
    match v {
        JsonValue::Null => JsonValue::Null,
        JsonValue::Bool(b) => JsonValue::Bool(*b),
        JsonValue::Number(s) => JsonValue::Number(s.clone()),
        JsonValue::String(s) => JsonValue::String(s.clone()),
        JsonValue::Array(a) => {
            let mut items: Vec<JsonValue> = Vec::new();
            let n = a.len();
            let mut i: usize = 0;
            while i < n
                invariant
                    n == a@.len(),
                    0 <= i <= n,
                    items@.len() == i,
                    forall|j: int|
                        0 <= j < i ==> jview(#[trigger] items@[j]) == jview(a@[j]),
                decreases n - i,
            {
                proof {
                    assert(decreases_to!(*v => (*v)->Array_0));
                    assert(decreases_to!((*v)->Array_0 => (*v)->Array_0@));
                    assert(decreases_to!((*v)->Array_0@ => (*v)->Array_0@[i as int]));
                    assert(decreases_to!(*v => a@[i as int]));
                }
                items.push(clone_value(&a[i]));
                i += 1;
            }
            let r = JsonValue::Array(items);
            proof {
                lemma_jview_seq(items@);
                lemma_jview_seq(a@);
                assert forall|j: int| 0 <= j < items@.len() implies jview_seq(items@)[j]
                    == jview_seq(a@)[j] by {
                    assert(jview(items@[j]) == jview(a@[j]));
                }
                assert(jview_seq(items@) =~= jview_seq(a@));
                assert(jview(r) == jview(*v));
            }
            r
        },
        JsonValue::Object(m) => {
            let mut items: Vec<(String, JsonValue)> = Vec::new();
            let n = m.len();
            let mut i: usize = 0;
            while i < n
                invariant
                    n == m@.len(),
                    0 <= i <= n,
                    items@.len() == i,
                    forall|j: int|
                        0 <= j < i ==> (#[trigger] items@[j]).0@ == m@[j].0@ && jview(items@[j].1)
                            == jview(m@[j].1),
                decreases n - i,
            {
                proof {
                    assert(decreases_to!(*v => (*v)->Object_0));
                    assert(decreases_to!((*v)->Object_0 => (*v)->Object_0@));
                    assert(decreases_to!((*v)->Object_0@ => (*v)->Object_0@[i as int]));
                    assert(decreases_to!((*v)->Object_0@[i as int] => (*v)->Object_0@[i as int].1));
                    assert(decreases_to!(*v => m@[i as int].1));
                }
                let entry = &m[i];
                items.push((entry.0.clone(), clone_value(&entry.1)));
                i += 1;
            }
            let r = JsonValue::Object(items);
            proof {
                lemma_jview_obj(items@);
                lemma_jview_obj(m@);
                assert forall|j: int| 0 <= j < items@.len() implies jview_obj(items@)[j]
                    == jview_obj(m@)[j] by {
                    assert((items@[j]).0@ == m@[j].0@ && jview(items@[j].1) == jview(m@[j].1));
                }
                assert(jview_obj(items@) =~= jview_obj(m@));
                assert(jview(r) == jview(*v));
            }
            r
        },
    }
}

/// Association-list lookup among object entries: the first entry with the
/// given key.
pub open spec fn spec_object_get(m: Seq<(Seq<char>, JsonVal)>, key: Seq<char>) -> Option<JsonVal>
    decreases m.len(),
{
    if m.len() == 0 {
        None
    } else if m[0].0 == key {
        Some(m[0].1)
    } else {
        spec_object_get(m.drop_first(), key)
    }
}

/// Whether some entry holds the key.
pub open spec fn spec_object_has(m: Seq<(Seq<char>, JsonVal)>, key: Seq<char>) -> bool {
    exists|i: int| 0 <= i < m.len() && (#[trigger] m[i]).0 == key
}

/// Executable lookup of the first entry with the given key.
pub fn object_get<'a>(m: &'a Vec<(String, JsonValue)>, key: &str) -> (r: Option<&'a JsonValue>)
    ensures
        match r {
            Some(v) => spec_object_get(jview_obj(m@), key@) == Some(jview(*v)),
            None => spec_object_get(jview_obj(m@), key@) is None,
        },
{
    let ghost entries = jview_obj(m@);
    proof {
        assert(entries.skip(0) =~= entries);
    }
    let n = m.len();
    let mut i: usize = 0;
    while i < n
        invariant
            n == m@.len(),
            entries == jview_obj(m@),
            0 <= i <= n,
            spec_object_get(entries, key@) == spec_object_get(entries.skip(i as int), key@),
        decreases n - i,
    {
        proof {
            lemma_jview_obj(m@);
            assert(entries.skip(i as int)[0] == entries[i as int]);
            assert(entries.skip(i as int).drop_first() =~= entries.skip(i as int + 1));
        }
        if crate::text::str_eq(m[i].0.as_str(), key) {
            proof {
                assert(entries[i as int] == (m@[i as int].0@, jview(m@[i as int].1)));
            }
            return Some(&m[i].1);
        }
        i += 1;
    }
    proof {
        lemma_jview_obj(m@);
        assert(entries.skip(n as int) =~= Seq::<(Seq<char>, JsonVal)>::empty());
    }
    None
}

/// `spec_object_get` finds a value exactly when `spec_object_has` holds.
pub proof fn lemma_object_get_has(m: Seq<(Seq<char>, JsonVal)>, key: Seq<char>)
    ensures
        spec_object_get(m, key) is Some <==> spec_object_has(m, key),
    decreases m.len(),
{
    if m.len() > 0 {
        lemma_object_get_has(m.drop_first(), key);
        if m[0].0 == key {
        } else {
            assert forall|i: int|
                0 <= i < m.len() && (#[trigger] m[i]).0 == key implies spec_object_has(
                m.drop_first(),
                key,
            ) by {
                assert(m.drop_first()[i - 1] == m[i]);
            }
            assert forall|j: int|
                0 <= j < m.drop_first().len() && (#[trigger] m.drop_first()[j]).0
                    == key implies spec_object_has(m, key) by {
                assert(m[j + 1] == m.drop_first()[j]);
            }
        }
    }
}

} // verus!

verus! {

/// Executable check of `json_wf`.
#[verifier::loop_isolation(false)]
pub fn check_json_wf(v: &JsonValue) -> (r: bool)
    ensures
        r == json_wf(jview(*v)),
    decreases *v,
{
    match v {
        JsonValue::Null => true,
        JsonValue::Bool(_) => true,
        JsonValue::Number(s) => {
            let n = s.as_str().unicode_len();
            if n == 0 {
                return false;
            }
            let mut i: usize = 0;
            let mut ok: bool = true;
            while i < n
                invariant
                    n == s@.len(),
                    0 <= i <= n,
                    ok == (forall|j: int|
                        0 <= j < i ==> (('0' <= #[trigger] s@[j] && s@[j] <= '9') || s@[j] == '-'
                            || s@[j] == '+' || s@[j] == '.' || s@[j] == 'e' || s@[j] == 'E')),
                decreases n - i,
            {
                let c = s.as_str().get_char(i);
                if !(('0' <= c && c <= '9') || c == '-' || c == '+' || c == '.' || c == 'e' || c
                    == 'E') {
                    ok = false;
                }
                i += 1;
            }
            ok
        },
        JsonValue::String(_) => true,
        JsonValue::Array(a) => {
            proof {
                lemma_jview_seq(a@);
            }
            let n = a.len();
            let mut i: usize = 0;
            while i < n
                invariant
                    n == a@.len(),
                    0 <= i <= n,
                    forall|j: int| 0 <= j < i ==> json_wf(jview(#[trigger] a@[j])),
                decreases n - i,
            {
                proof {
                    assert(decreases_to!(*v => (*v)->Array_0));
                    assert(decreases_to!((*v)->Array_0 => (*v)->Array_0@));
                    assert(decreases_to!((*v)->Array_0@ => (*v)->Array_0@[i as int]));
                    assert(decreases_to!(*v => a@[i as int]));
                }
                if !check_json_wf(&a[i]) {
                    proof {
                        assert(jview_seq(a@)[i as int] == jview(a@[i as int]));
                        assert(jview(*v) == JsonVal::Arr(jview_seq(a@)));
                        if json_wf(jview(*v)) {
                            assert(json_wf((jview(*v))->Arr_0[i as int]));
                            assert(false);
                        }
                    }
                    return false;
                }
                i += 1;
            }
            proof {
                assert forall|j: int| 0 <= j < jview_seq(a@).len() implies json_wf(
                    #[trigger] jview_seq(a@)[j],
                ) by {
                    assert(jview_seq(a@)[j] == jview(a@[j]));
                }
            }
            true
        },
        JsonValue::Object(m) => {
            proof {
                lemma_jview_obj(m@);
            }
            let n = m.len();
            let mut i: usize = 0;
            while i < n
                invariant
                    n == m@.len(),
                    0 <= i <= n,
                    forall|j: int| 0 <= j < i ==> json_wf(jview((#[trigger] m@[j]).1)),
                decreases n - i,
            {
                proof {
                    assert(decreases_to!(*v => (*v)->Object_0));
                    assert(decreases_to!((*v)->Object_0 => (*v)->Object_0@));
                    assert(decreases_to!((*v)->Object_0@ => (*v)->Object_0@[i as int]));
                    assert(decreases_to!((*v)->Object_0@[i as int] => (*v)->Object_0@[i as int].1));
                    assert(decreases_to!(*v => m@[i as int].1));
                }
                if !check_json_wf(&m[i].1) {
                    proof {
                        assert(jview_obj(m@)[i as int].1 == jview(m@[i as int].1));
                        assert(jview(*v) == JsonVal::Obj(jview_obj(m@)));
                        if json_wf(jview(*v)) {
                            assert(json_wf((jview(*v))->Obj_0[i as int].1));
                            assert(false);
                        }
                    }
                    return false;
                }
                i += 1;
            }
            proof {
                assert forall|j: int| 0 <= j < jview_obj(m@).len() implies json_wf(
                    (#[trigger] jview_obj(m@)[j]).1,
                ) by {
                    assert(jview_obj(m@)[j].1 == jview(m@[j].1));
                }
            }
            true
        },
    }
}

#[verifier::external_type_specification]
#[verifier::external_body]
pub struct ExSerdeValue(serde_json::Value);

/// The shape held by a parsed `serde_json` tree.
pub uninterp spec fn serde_value_model(v: serde_json::Value) -> JsonVal;

/// What `serde_json` parsing yields on a given text, if anything.
pub uninterp spec fn spec_json_parse(text: Seq<u8>) -> Option<JsonVal>;

/// Relies on `serde_json::from_slice::<serde_json::Value>`: whether a text
/// parses, and to what tree, depends on the text alone.
#[verifier::external_body]
fn serde_parse(text: &[u8]) -> (r: Option<serde_json::Value>)
    ensures
        match r {
            Some(v) => spec_json_parse(text@) == Some(serde_value_model(v)),
            None => spec_json_parse(text@) is None,
        },
{
    serde_json::from_slice::<serde_json::Value>(text).ok()
}

/// Relies on `serde_json::Value`'s variants to translate a parsed tree into
/// this crate's model, arm by arm; a number keeps its rendered literal.
#[verifier::external_body]
fn import_serde_value(v: serde_json::Value) -> (r: JsonValue)
    ensures
        jview(r) == serde_value_model(v),
{
    match v {
        serde_json::Value::Null => JsonValue::Null,
        serde_json::Value::Bool(b) => JsonValue::Bool(b),
        serde_json::Value::Number(n) => JsonValue::Number(n.to_string()),
        serde_json::Value::String(s) => JsonValue::String(s),
        serde_json::Value::Array(a) => JsonValue::Array(
            a.into_iter().map(import_serde_value).collect(),
        ),
        serde_json::Value::Object(m) => JsonValue::Object(
            m.into_iter().map(|p| (p.0, import_serde_value(p.1))).collect(),
        ),
    }
}

/// Parse JSON text into this crate's value tree.
pub fn parse_json(text: &[u8]) -> (r: Option<JsonValue>)
    ensures
        match r {
            Some(v) => spec_json_parse(text@) == Some(jview(v)),
            None => spec_json_parse(text@) is None,
        },
{
    match serde_parse(text) {
        Some(v) => Some(import_serde_value(v)),
        None => None,
    }
}

} // verus!

verus! {

/// The characters of an all-ASCII byte sequence.
pub open spec fn ascii_chars(b: Seq<u8>) -> Seq<char> {
    Seq::new(b.len(), |i: int| b[i] as char)
}

/// Every byte the emitter writes is ASCII: everything else is escaped.
pub proof fn lemma_json_emit_ascii(v: JsonVal)
    requires
        json_wf(v),
    ensures
        forall|i: int| 0 <= i < json_emit(v).len() ==> (#[trigger] json_emit(v)[i]) < 0x80,
    decreases v, 2int,
{
    match v {
        JsonVal::Null => {},
        JsonVal::Bool(_) => {},
        JsonVal::Num(s) => {
            assert forall|i: int| 0 <= i < json_emit(v).len() implies (#[trigger] json_emit(v)[i])
                < 0x80 by {
                assert(json_emit(v)[i] == s[i] as u8);
            }
        },
        JsonVal::Str(s) => {
            lemma_escape_str_ascii(s);
            assert forall|i: int| 0 <= i < json_emit(v).len() implies (#[trigger] json_emit(v)[i])
                < 0x80 by {
                if 1 <= i < 1 + escape_str(s).len() {
                    assert(json_emit(v)[i] == escape_str(s)[i - 1]);
                }
            }
        },
        JsonVal::Arr(a) => {
            lemma_json_emit_items_ascii(a, 0);
            assert forall|i: int| 0 <= i < json_emit(v).len() implies (#[trigger] json_emit(v)[i])
                < 0x80 by {
                if 1 <= i < 1 + json_emit_items(a, 0).len() {
                    assert(json_emit(v)[i] == json_emit_items(a, 0)[i - 1]);
                }
            }
        },
        JsonVal::Obj(m) => {
            lemma_json_emit_entries_ascii(m, 0);
            assert forall|i: int| 0 <= i < json_emit(v).len() implies (#[trigger] json_emit(v)[i])
                < 0x80 by {
                if 1 <= i < 1 + json_emit_entries(m, 0).len() {
                    assert(json_emit(v)[i] == json_emit_entries(m, 0)[i - 1]);
                }
            }
        },
    }
}

/// Escaped string bodies are ASCII.
pub proof fn lemma_escape_str_ascii(s: Seq<char>)
    ensures
        forall|i: int| 0 <= i < escape_str(s).len() ==> (#[trigger] escape_str(s)[i]) < 0x80,
    decreases s.len(),
{
    if s.len() > 0 {
        lemma_escape_str_ascii(s.drop_first());
        assert forall|i: int| 0 <= i < escape_str(s).len() implies (#[trigger] escape_str(s)[i])
            < 0x80 by {
            if i < escape_char(s[0]).len() {
                assert(escape_str(s)[i] == escape_char(s[0])[i]);
            } else {
                assert(escape_str(s)[i] == escape_str(s.drop_first())[i - escape_char(
                    s[0],
                ).len()]);
            }
        }
    }
}

/// Emitted array items are ASCII.
proof fn lemma_json_emit_items_ascii(s: Seq<JsonVal>, i: int)
    requires
        forall|j: int| 0 <= j < s.len() ==> json_wf(#[trigger] s[j]),
    ensures
        forall|k: int|
            0 <= k < json_emit_items(s, i).len() ==> (#[trigger] json_emit_items(s, i)[k]) < 0x80,
    decreases s, (if i < s.len() { s.len() - i } else { 0 }), 1int,
{
    if 0 <= i < s.len() {
        lemma_json_emit_ascii(s[i]);
        lemma_json_emit_items_ascii(s, i + 1);
        let sep: Seq<u8> = if i > 0 {
            seq![0x2C]
        } else {
            Seq::<u8>::empty()
        };
        assert forall|k: int| 0 <= k < json_emit_items(s, i).len() implies (
        #[trigger] json_emit_items(s, i)[k]) < 0x80 by {
            if k < sep.len() {
            } else if k < sep.len() + json_emit(s[i]).len() {
                assert(json_emit_items(s, i)[k] == json_emit(s[i])[k - sep.len()]);
            } else {
                assert(json_emit_items(s, i)[k] == json_emit_items(s, i + 1)[k - sep.len()
                    - json_emit(s[i]).len()]);
            }
        }
    }
}

/// Emitted object entries are ASCII.
proof fn lemma_json_emit_entries_ascii(s: Seq<(Seq<char>, JsonVal)>, i: int)
    requires
        forall|j: int| 0 <= j < s.len() ==> json_wf((#[trigger] s[j]).1),
    ensures
        forall|k: int|
            0 <= k < json_emit_entries(s, i).len() ==> (#[trigger] json_emit_entries(s, i)[k])
                < 0x80,
    decreases s, (if i < s.len() { s.len() - i } else { 0 }), 1int,
{
    if 0 <= i < s.len() {
        lemma_json_emit_ascii(s[i].1);
        lemma_escape_str_ascii(s[i].0);
        lemma_json_emit_entries_ascii(s, i + 1);
        let sep: Seq<u8> = if i > 0 {
            seq![0x2C]
        } else {
            Seq::<u8>::empty()
        };
        let prefix = sep + seq![0x22u8] + escape_str(s[i].0) + seq![0x22u8, 0x3Au8] + json_emit(
            s[i].1,
        );
        assert forall|k: int| 0 <= k < json_emit_entries(s, i).len() implies (
        #[trigger] json_emit_entries(s, i)[k]) < 0x80 by {
            if k < prefix.len() {
                assert(json_emit_entries(s, i)[k] == prefix[k]);
                if k < sep.len() {
                } else if k < sep.len() + 1 {
                } else if k < sep.len() + 1 + escape_str(s[i].0).len() {
                    assert(prefix[k] == escape_str(s[i].0)[k - sep.len() - 1]);
                } else if k < sep.len() + 3 + escape_str(s[i].0).len() {
                } else {
                    assert(prefix[k] == json_emit(s[i].1)[k - sep.len() - 3 - escape_str(
                        s[i].0,
                    ).len()]);
                }
            } else {
                assert(json_emit_entries(s, i)[k] == json_emit_entries(s, i + 1)[k
                    - prefix.len()]);
            }
        }
    }
}

} // verus!
