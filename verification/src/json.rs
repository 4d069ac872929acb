//! JSON values and their canonical text: object keys sorted at every level,
//! no white space, strings escaped as `serde_json` escapes them.
use vstd::prelude::*;

use crate::text::{
    chars_less, chars_of, decimal, decimal_string, hex_digit, hex_digit_char, str_equal, str_lt,
    string_from_chars,
};
use crate::types::{ChallengeParameters, ChallengeParametersView};

verus! {

broadcast use vstd::seq_lib::group_seq_properties;

/// A JSON value. Numbers are kept as their JSON text.
#[derive(Debug)]
pub enum JsonValue {
    Null,
    Bool(bool),
    Number(String),
    String(String),
    Array(Vec<JsonValue>),
    Object(Vec<(String, JsonValue)>),
}

/// The mathematical model of a [`JsonValue`].
pub enum Json {
    Null,
    Bool(bool),
    Number(Seq<char>),
    String(Seq<char>),
    Array(Seq<Json>),
    Object(Seq<(Seq<char>, Json)>),
}

impl View for JsonValue {
    type V = Json;

    open spec fn view(&self) -> Json
        decreases self,
    {
        match self {
            JsonValue::Null => Json::Null,
            JsonValue::Bool(b) => Json::Bool(*b),
            JsonValue::Number(t) => Json::Number(t@),
            JsonValue::String(s) => Json::String(s@),
            JsonValue::Array(a) => Json::Array(
                Seq::new(a@.len(), |i: int| if 0 <= i < a@.len() { a@[i].view() } else { Json::Null }),
            ),
            JsonValue::Object(o) => Json::Object(entries_model(o@)),
        }
    }
}

/// The model of object entries, entry by entry.
pub open spec fn entries_model(o: Seq<(String, JsonValue)>) -> Seq<(Seq<char>, Json)>
    decreases o,
{
    if o.len() == 0 {
        Seq::empty()
    } else {
        entries_model(o.drop_last()).push((o.last().0@, o.last().1.view()))
    }
}

/// The model of a list of keyed entries.
pub open spec fn kv_view<V: View>(o: Seq<(String, V)>) -> Seq<(Seq<char>, V::V)> {
    Seq::new(o.len(), |i: int| (o[i].0@, o[i].1@))
}

/// The models of a list of values.
pub open spec fn items_view(a: Seq<JsonValue>) -> Seq<Json> {
    Seq::new(a.len(), |i: int| a[i]@)
}

/// The model of an array is the models of its items.
pub proof fn lemma_array_view(v: JsonValue)
    requires
        v is Array,
    ensures
        v@ == Json::Array(items_view(v->Array_0@)),
{
    assert(v@->Array_0 =~= items_view(v->Array_0@));
}

/// `entries_model` is the entry-wise model.
pub proof fn lemma_entries_model(o: Seq<(String, JsonValue)>)
    ensures
        entries_model(o) == kv_view(o),
    decreases o.len(),
{
    if o.len() > 0 {
        lemma_entries_model(o.drop_last());
        assert(kv_view(o) =~= kv_view(o.drop_last()).push((o.last().0@, o.last().1@)));
    } else {
        assert(kv_view(o) =~= Seq::<(Seq<char>, Json)>::empty());
    }
}

/// The model of an object is the models of its entries.
pub proof fn lemma_object_view(v: JsonValue)
    requires
        v is Object,
    ensures
        v@ == Json::Object(kv_view(v->Object_0@)),
{
    lemma_entries_model(v->Object_0@);
}

impl Clone for JsonValue {
    /// A deep copy with the same model.
    fn clone(&self) -> (r: Self)
        ensures
            r@ == self@,
        decreases self,
    {
        match self {
            JsonValue::Null => JsonValue::Null,
            JsonValue::Bool(b) => JsonValue::Bool(*b),
            JsonValue::Number(t) => JsonValue::Number(t.clone()),
            JsonValue::String(s) => JsonValue::String(s.clone()),
            JsonValue::Array(a) => {
                let mut out: Vec<JsonValue> = Vec::new();
                let mut i: usize = 0;
                while i < a.len()
                    invariant
                        i <= a.len(),
                        out.len() == i,
                        forall|j: int| 0 <= j < i ==> out@[j]@ == a@[j]@,
                        *self == JsonValue::Array(*a),
                    decreases a.len() - i,
                {
                    proof {
                        assert(decreases_to!(*self => self->Array_0));
                        assert(decreases_to!(a => a@));
                        assert(decreases_to!(a@ => a@[i as int]));
                    }
                    let x = a[i].clone();
                    out.push(x);
                    i += 1;
                }
                let r = JsonValue::Array(out);
                assert(r@->Array_0 =~= self@->Array_0);
                r
            },
            JsonValue::Object(o) => {
                let out = clone_entries(o, self);
                let r = JsonValue::Object(out);
                proof {
                    lemma_object_view(r);
                    lemma_object_view(*self);
                }
                r
            },
        }
    }
}

/// Deep copy of the entries of an object (a part of cloning `whole`).
fn clone_entries(o: &Vec<(String, JsonValue)>, whole: &JsonValue) -> (out: Vec<(String, JsonValue)>)
    requires
        *whole == JsonValue::Object(*o),
    ensures
        kv_view(out@) == kv_view(o@),
    decreases whole, 0nat,
{
    let mut out: Vec<(String, JsonValue)> = Vec::new();
    let mut i: usize = 0;
    while i < o.len()
        invariant
            i <= o.len(),
            out.len() == i,
            forall|j: int| 0 <= j < i ==> out@[j].0@ == o@[j].0@ && out@[j].1@ == o@[j].1@,
            *whole == JsonValue::Object(*o),
        decreases o.len() - i,
    {
        proof {
            assert(decreases_to!(*whole => whole->Object_0));
            assert(decreases_to!(o => o@));
            assert(decreases_to!(o@ => o@[i as int]));
            assert(decreases_to!(o@[i as int] => o@[i as int].1));
        }
        let k = o[i].0.clone();
        let x = o[i].1.clone();
        out.push((k, x));
        i += 1;
    }
    assert(kv_view(out@) =~= kv_view(o@));
    out
}

/// Deep copy of a list of object entries.
pub fn copy_entries(o: &Vec<(String, JsonValue)>) -> (out: Vec<(String, JsonValue)>)
    ensures
        kv_view(out@) == kv_view(o@),
{
    let mut out: Vec<(String, JsonValue)> = Vec::new();
    let mut i: usize = 0;
    while i < o.len()
        invariant
            i <= o.len(),
            out.len() == i,
            forall|j: int| 0 <= j < i ==> out@[j].0@ == o@[j].0@ && out@[j].1@ == o@[j].1@,
        decreases o.len() - i,
    {
        let k = o[i].0.clone();
        let x = o[i].1.clone();
        out.push((k, x));
        i += 1;
    }
    assert(kv_view(out@) =~= kv_view(o@));
    out
}

// ---------------------------------------------------------------------------
// Sorting object keys
// ---------------------------------------------------------------------------

/// Inserts `(k, v)` into entries kept in key order, replacing the value of
/// an equal key: what inserting into a `BTreeMap` does.
pub open spec fn sorted_insert<V>(es: Seq<(Seq<char>, V)>, k: Seq<char>, v: V) -> Seq<
    (Seq<char>, V),
>
    decreases es.len(),
{
    if es.len() == 0 {
        seq![(k, v)]
    } else if es[0].0 == k {
        seq![(k, v)] + es.drop_first()
    } else if str_lt(k, es[0].0) {
        seq![(k, v)] + es
    } else {
        seq![es[0]] + sorted_insert(es.drop_first(), k, v)
    }
}

/// A JSON value with the keys of every object sorted; for repeated keys the
/// last entry wins, as when collecting into a `BTreeMap`.
pub open spec fn sort_json(v: Json) -> Json
    decreases v,
{
    match v {
        Json::Array(a) => Json::Array(sort_items(a)),
        Json::Object(o) => Json::Object(sort_entries(o)),
        _ => v,
    }
}

pub open spec fn sort_items(a: Seq<Json>) -> Seq<Json>
    decreases a,
{
    if a.len() == 0 {
        Seq::empty()
    } else {
        sort_items(a.drop_last()).push(sort_json(a.last()))
    }
}

pub open spec fn sort_entries(o: Seq<(Seq<char>, Json)>) -> Seq<(Seq<char>, Json)>
    decreases o,
{
    if o.len() == 0 {
        Seq::empty()
    } else {
        sorted_insert(sort_entries(o.drop_last()), o.last().0, sort_json(o.last().1))
    }
}

// ---------------------------------------------------------------------------
// Writing JSON text
// ---------------------------------------------------------------------------

/// How `serde_json` writes one character inside a string literal.
pub open spec fn escape_char(c: char) -> Seq<char> {
    if c == '"' {
        seq!['\\', '"']
    } else if c == '\\' {
        seq!['\\', '\\']
    } else if c == '\u{8}' {
        seq!['\\', 'b']
    } else if c == '\u{c}' {
        seq!['\\', 'f']
    } else if c == '\n' {
        seq!['\\', 'n']
    } else if c == '\r' {
        seq!['\\', 'r']
    } else if c == '\t' {
        seq!['\\', 't']
    } else if (c as u32) < 0x20 {
        seq![
            '\\',
            'u',
            '0',
            '0',
            hex_digit_char(((c as u32) / 16) as int),
            hex_digit_char(((c as u32) % 16) as int),
        ]
    } else {
        seq![c]
    }
}

/// The escaped body of a string literal.
pub open spec fn escape_str(s: Seq<char>) -> Seq<char>
    decreases s.len(),
{
    if s.len() == 0 {
        Seq::empty()
    } else {
        escape_str(s.drop_last()) + escape_char(s.last())
    }
}

/// A JSON string literal.
pub open spec fn json_string(s: Seq<char>) -> Seq<char> {
    seq!['"'] + escape_str(s) + seq!['"']
}

/// Compact JSON text of a value, entries in the order given.
pub open spec fn json_text(v: Json) -> Seq<char>
    decreases v,
{
    match v {
        Json::Null => seq!['n', 'u', 'l', 'l'],
        Json::Bool(b) => if b {
            seq!['t', 'r', 'u', 'e']
        } else {
            seq!['f', 'a', 'l', 's', 'e']
        },
        Json::Number(t) => t,
        Json::String(s) => json_string(s),
        Json::Array(a) => seq!['['] + items_text(a) + seq![']'],
        Json::Object(o) => seq!['{'] + entries_text(o) + seq!['}'],
    }
}

/// The comma-separated texts of array items.
pub open spec fn items_text(a: Seq<Json>) -> Seq<char>
    decreases a,
{
    if a.len() == 0 {
        Seq::empty()
    } else if a.len() == 1 {
        json_text(a[0])
    } else {
        items_text(a.drop_last()) + seq![','] + json_text(a.last())
    }
}

/// The comma-separated `"key":value` texts of object entries.
pub open spec fn entries_text(o: Seq<(Seq<char>, Json)>) -> Seq<char>
    decreases o,
{
    if o.len() == 0 {
        Seq::empty()
    } else if o.len() == 1 {
        json_string(o[0].0) + seq![':'] + json_text(o[0].1)
    } else {
        entries_text(o.drop_last()) + seq![','] + json_string(o.last().0) + seq![':'] + json_text(
            o.last().1,
        )
    }
}

/// Canonical JSON text: keys sorted at all levels, then written compactly.
pub open spec fn canonical_text(v: Json) -> Seq<char> {
    json_text(sort_json(v))
}

// ---------------------------------------------------------------------------
// Order on keys
// ---------------------------------------------------------------------------

/// No string comes before itself.
pub proof fn lemma_str_lt_irreflexive(a: Seq<char>)
    ensures
        !str_lt(a, a),
    decreases a.len(),
{
    if a.len() > 0 {
        lemma_str_lt_irreflexive(a.drop_first());
    }
}

/// The order is asymmetric.
pub proof fn lemma_str_lt_asymmetric(a: Seq<char>, b: Seq<char>)
    requires
        str_lt(a, b),
    ensures
        !str_lt(b, a),
    decreases a.len(),
{
    if a.len() > 0 && b.len() > 0 && a[0] == b[0] {
        lemma_str_lt_asymmetric(a.drop_first(), b.drop_first());
    }
}

/// Two different strings are ordered one way or the other.
pub proof fn lemma_str_lt_total(a: Seq<char>, b: Seq<char>)
    requires
        a != b,
    ensures
        str_lt(a, b) || str_lt(b, a),
    decreases a.len(),
{
    if a.len() == 0 {
        assert(b.len() > 0) by {
            if b.len() == 0 {
                assert(a =~= b);
            }
        }
    } else if b.len() > 0 {
        if a[0] == b[0] {
            assert(a.drop_first() != b.drop_first()) by {
                if a.drop_first() == b.drop_first() {
                    assert(a =~= seq![a[0]] + a.drop_first());
                    assert(b =~= seq![b[0]] + b.drop_first());
                }
            }
            lemma_str_lt_total(a.drop_first(), b.drop_first());
        } else {
            if (a[0] as u32) == (b[0] as u32) {
                vstd::utf8::char_u32_cast(a[0], a[0] as u32);
                vstd::utf8::char_u32_cast(b[0], b[0] as u32);
            }
        }
    }
}

/// The order is transitive.
pub proof fn lemma_str_lt_transitive(a: Seq<char>, b: Seq<char>, c: Seq<char>)
    requires
        str_lt(a, b),
        str_lt(b, c),
    ensures
        str_lt(a, c),
    decreases a.len(),
{
    if a.len() > 0 && b.len() > 0 && c.len() > 0 && a[0] == b[0] && b[0] == c[0] {
        lemma_str_lt_transitive(a.drop_first(), b.drop_first(), c.drop_first());
    }
}

// ---------------------------------------------------------------------------
// Executable sorting and writing
// ---------------------------------------------------------------------------

/// Where `sorted_insert` puts a key, given the position of the first entry
/// not below it.
pub proof fn lemma_sorted_insert_at<V>(es: Seq<(Seq<char>, V)>, k: Seq<char>, v: V, i: int)
    requires
        0 <= i <= es.len(),
        forall|j: int| 0 <= j < i ==> str_lt(#[trigger] es[j].0, k),
        i < es.len() ==> !str_lt(es[i].0, k),
    ensures
        sorted_insert(es, k, v) == if i < es.len() && es[i].0 == k {
            es.take(i) + seq![(k, v)] + es.skip(i + 1)
        } else {
            es.take(i) + seq![(k, v)] + es.skip(i)
        },
    decreases i,
{
    if i == 0 {
        if es.len() > 0 && es[0].0 != k {
            lemma_str_lt_total(es[0].0, k);
        }
        assert(es.take(0) + seq![(k, v)] + es.skip(1) =~= seq![(k, v)] + es.drop_first());
        assert(es.take(0) + seq![(k, v)] + es.skip(0) =~= seq![(k, v)] + es);
    } else {
        let r = es.drop_first();
        assert forall|j: int| 0 <= j < i - 1 implies str_lt(#[trigger] r[j].0, k) by {
            assert(r[j] == es[j + 1]);
        }
        lemma_sorted_insert_at(r, k, v, i - 1);
        lemma_str_lt_irreflexive(k);
        lemma_str_lt_asymmetric(es[0].0, k);
        assert(es[0].0 != k);
        if i < es.len() && es[i].0 == k {
            assert(seq![es[0]] + (r.take(i - 1) + seq![(k, v)] + r.skip(i)) =~= es.take(i) + seq![
                (k, v),
            ] + es.skip(i + 1));
        } else {
            assert(seq![es[0]] + (r.take(i - 1) + seq![(k, v)] + r.skip(i - 1)) =~= es.take(i)
                + seq![(k, v)] + es.skip(i));
        }
    }
}

/// The keys of the entries are strictly increasing.
pub open spec fn keys_sorted<V>(es: Seq<(Seq<char>, V)>) -> bool {
    forall|i: int, j: int| 0 <= i < j < es.len() ==> str_lt(#[trigger] es[i].0, #[trigger] es[j].0)
}

/// Every key of the entries comes after `b`.
pub open spec fn keys_above<V>(b: Seq<char>, es: Seq<(Seq<char>, V)>) -> bool {
    forall|i: int| 0 <= i < es.len() ==> str_lt(b, #[trigger] es[i].0)
}

/// The value of the last entry with key `k`, if any.
pub open spec fn last_value<V>(es: Seq<(Seq<char>, V)>, k: Seq<char>) -> Option<V>
    decreases es.len(),
{
    if es.len() == 0 {
        None
    } else {
        match last_value(es.drop_first(), k) {
            Some(x) => Some(x),
            None => if es[0].0 == k {
                Some(es[0].1)
            } else {
                None
            },
        }
    }
}

/// A value with its objects' keys sorted, when there is one.
pub open spec fn sorted_value(x: Option<Json>) -> Option<Json> {
    match x {
        Some(v) => Some(sort_json(v)),
        None => None,
    }
}

proof fn lemma_last_value_absent<V>(es: Seq<(Seq<char>, V)>, k: Seq<char>)
    requires
        keys_above(k, es),
    ensures
        last_value(es, k) is None,
    decreases es.len(),
{
    if es.len() > 0 {
        lemma_str_lt_irreflexive(k);
        assert(str_lt(k, es[0].0));
        lemma_last_value_absent(es.drop_first(), k);
    }
}

proof fn lemma_last_value_from_end<V>(es: Seq<(Seq<char>, V)>, k: Seq<char>)
    requires
        es.len() > 0,
    ensures
        last_value(es, k) == if es.last().0 == k {
            Some(es.last().1)
        } else {
            last_value(es.drop_last(), k)
        },
    decreases es.len(),
{
    if es.len() == 1 {
        assert(es.drop_first().len() == 0);
        assert(es.drop_last().len() == 0);
    } else {
        let r = es.drop_first();
        lemma_last_value_from_end(r, k);
        assert(r.last() == es.last());
        assert(r.drop_last() =~= es.drop_last().drop_first());
        assert(es.drop_last()[0] == es[0]);
    }
}

proof fn lemma_sorted_insert_above<V>(es: Seq<(Seq<char>, V)>, k: Seq<char>, v: V, b: Seq<char>)
    requires
        keys_above(b, es),
        str_lt(b, k),
    ensures
        keys_above(b, sorted_insert(es, k, v)),
    decreases es.len(),
{
    if es.len() > 0 && es[0].0 != k && !str_lt(k, es[0].0) {
        let r = es.drop_first();
        assert(keys_above(b, r)) by {
            assert forall|i: int| 0 <= i < r.len() implies str_lt(b, #[trigger] r[i].0) by {
                assert(r[i] == es[i + 1]);
            }
        }
        lemma_sorted_insert_above(r, k, v, b);
        let t = sorted_insert(r, k, v);
        assert forall|i: int| 0 <= i < t.len() + 1 implies str_lt(
            b,
            #[trigger] (seq![es[0]] + t)[i].0,
        ) by {
            if i > 0 {
                assert((seq![es[0]] + t)[i] == t[i - 1]);
            }
        }
    } else if es.len() > 0 && es[0].0 == k {
        let r = es.drop_first();
        assert forall|i: int| 0 <= i < r.len() + 1 implies str_lt(
            b,
            #[trigger] (seq![(k, v)] + r)[i].0,
        ) by {
            if i > 0 {
                assert((seq![(k, v)] + r)[i] == es[i]);
            }
        }
    } else {
        assert forall|i: int| 0 <= i < es.len() + 1 implies str_lt(
            b,
            #[trigger] (seq![(k, v)] + es)[i].0,
        ) by {
            if i > 0 {
                assert((seq![(k, v)] + es)[i] == es[i - 1]);
            }
        }
    }
}

proof fn lemma_prepend_sorted<V>(x: (Seq<char>, V), t: Seq<(Seq<char>, V)>)
    requires
        keys_sorted(t),
        keys_above(x.0, t),
    ensures
        keys_sorted(seq![x] + t),
{
    let u = seq![x] + t;
    assert forall|i: int, j: int| 0 <= i < j < u.len() implies str_lt(
        #[trigger] u[i].0,
        #[trigger] u[j].0,
    ) by {
        assert(u[j] == t[j - 1]);
        if i > 0 {
            assert(u[i] == t[i - 1]);
        }
    }
}

/// Inserting into entries with sorted keys keeps them sorted, gives `k` the
/// value `v` and leaves the value of every other key as it was.
pub proof fn lemma_sorted_insert_map<V>(es: Seq<(Seq<char>, V)>, k: Seq<char>, v: V)
    requires
        keys_sorted(es),
    ensures
        keys_sorted(sorted_insert(es, k, v)),
        last_value(sorted_insert(es, k, v), k) == Some(v),
        forall|k2: Seq<char>|
            k2 != k ==> #[trigger] last_value(sorted_insert(es, k, v), k2) == last_value(es, k2),
    decreases es.len(),
{
    let t = sorted_insert(es, k, v);
    if es.len() == 0 {
        assert(t.drop_first().len() == 0);
    } else {
        let r = es.drop_first();
        assert(keys_sorted(r)) by {
            assert forall|i: int, j: int| 0 <= i < j < r.len() implies str_lt(
                #[trigger] r[i].0,
                #[trigger] r[j].0,
            ) by {
                assert(r[i] == es[i + 1] && r[j] == es[j + 1]);
            }
        }
        assert(keys_above(es[0].0, r)) by {
            assert forall|i: int| 0 <= i < r.len() implies str_lt(es[0].0, #[trigger] r[i].0) by {
                assert(r[i] == es[i + 1]);
            }
        }
        if es[0].0 == k {
            assert(t.drop_first() =~= r);
            lemma_prepend_sorted((k, v), r);
            lemma_last_value_absent(r, k);
        } else if str_lt(k, es[0].0) {
            assert(t.drop_first() =~= es);
            assert(keys_above(k, es)) by {
                assert forall|i: int| 0 <= i < es.len() implies str_lt(k, #[trigger] es[i].0) by {
                    if i > 0 {
                        lemma_str_lt_transitive(k, es[0].0, es[i].0);
                    }
                }
            }
            lemma_prepend_sorted((k, v), es);
            lemma_last_value_absent(es, k);
        } else {
            lemma_str_lt_total(es[0].0, k);
            lemma_sorted_insert_map(r, k, v);
            lemma_sorted_insert_above(r, k, v, es[0].0);
            let u = sorted_insert(r, k, v);
            assert(t.drop_first() =~= u);
            lemma_prepend_sorted(es[0], u);
            assert forall|k2: Seq<char>| k2 != k implies #[trigger] last_value(t, k2) == last_value(
                es,
                k2,
            ) by {
                assert(last_value(u, k2) == last_value(r, k2));
            }
        }
    }
}

/// Sorting an object's entries leaves them with strictly increasing keys,
/// and gives each key the (sorted) value of its last entry, as collecting
/// into a `BTreeMap` does; no other key appears.
pub proof fn lemma_sort_entries_map(o: Seq<(Seq<char>, Json)>)
    ensures
        keys_sorted(sort_entries(o)),
        forall|k: Seq<char>|
            #[trigger] last_value(sort_entries(o), k) == sorted_value(last_value(o, k)),
    decreases o.len(),
{
    if o.len() > 0 {
        let s = sort_entries(o.drop_last());
        lemma_sort_entries_map(o.drop_last());
        lemma_sorted_insert_map(s, o.last().0, sort_json(o.last().1));
        assert forall|k: Seq<char>| #[trigger] last_value(sort_entries(o), k) == sorted_value(
            last_value(o, k),
        ) by {
            lemma_last_value_from_end(o, k);
        }
    }
}

/// Inserts `(k, v)` as `BTreeMap::insert` would, keeping keys in order.
pub fn insert_sorted<V: View>(es: &mut Vec<(String, V)>, k: String, v: V)
    ensures
        kv_view(final(es)@) == sorted_insert(kv_view(old(es)@), k@, v@),
{
    let ghost before = kv_view(es@);
    let kc = chars_of(k.as_str());
    let mut i: usize = 0;
    while i < es.len() && chars_less(&chars_of(es[i].0.as_str()), &kc)
        invariant
            i <= es.len(),
            before == kv_view(es@),
            kc@ == k@,
            forall|j: int| 0 <= j < i ==> str_lt(#[trigger] before[j].0, k@),
        decreases es.len() - i,
    {
        i += 1;
    }
    proof {
        lemma_sorted_insert_at(before, k@, v@, i as int);
    }
    if i < es.len() && str_equal(es[i].0.as_str(), k.as_str()) {
        es.set(i, (k, v));
        assert(kv_view(es@) =~= before.take(i as int) + seq![(k@, v@)] + before.skip(i + 1));
    } else {
        es.insert(i, (k, v));
        assert(kv_view(es@) =~= before.take(i as int) + seq![(k@, v@)] + before.skip(i as int));
    }
}

/// A copy of `v` with the keys of every object sorted (last entry wins for a
/// repeated key).
pub fn sort_json_keys(value: JsonValue) -> (r: JsonValue)
    ensures
        r@ == sort_json(value@),
{
    sort_json_ref(&value)
}

fn sort_json_ref(v: &JsonValue) -> (r: JsonValue)
    ensures
        r@ == sort_json(v@),
    decreases v,
{
    match v {
        JsonValue::Array(a) => {
            proof {
                lemma_array_view(*v);
            }
            let ghost av = items_view(a@);
            let mut out: Vec<JsonValue> = Vec::new();
            let mut i: usize = 0;
            while i < a.len()
                invariant
                    i <= a.len(),
                    *v == JsonValue::Array(*a),
                    av == items_view(a@),
                    items_view(out@) == sort_items(av.take(i as int)),
                decreases a.len() - i,
            {
                proof {
                    assert(decreases_to!(*v => v->Array_0));
                    assert(decreases_to!(a => a@));
                    assert(decreases_to!(a@ => a@[i as int]));
                }
                let x = sort_json_ref(&a[i]);
                let ghost prev = items_view(out@);
                out.push(x);
                proof {
                    assert(av.take(i + 1).drop_last() =~= av.take(i as int));
                    assert(av.take(i + 1).last() == a@[i as int]@);
                    assert(items_view(out@) =~= prev.push(x@));
                }
                i += 1;
            }
            assert(av.take(i as int) =~= av);
            let r = JsonValue::Array(out);
            proof {
                lemma_array_view(r);
            }
            r
        },
        JsonValue::Object(o) => {
            proof {
                lemma_object_view(*v);
            }
            let ghost ov = kv_view(o@);
            let mut out: Vec<(String, JsonValue)> = Vec::new();
            let mut i: usize = 0;
            assert(kv_view(out@) =~= Seq::<(Seq<char>, Json)>::empty());
            while i < o.len()
                invariant
                    i <= o.len(),
                    *v == JsonValue::Object(*o),
                    ov == kv_view(o@),
                    kv_view(out@) == sort_entries(ov.take(i as int)),
                decreases o.len() - i,
            {
                proof {
                    assert(decreases_to!(*v => v->Object_0));
                    assert(decreases_to!(o => o@));
                    assert(decreases_to!(o@ => o@[i as int]));
                    assert(decreases_to!(o@[i as int] => o@[i as int].1));
                }
                let x = sort_json_ref(&o[i].1);
                let k = o[i].0.clone();
                insert_sorted(&mut out, k, x);
                proof {
                    assert(ov.take(i + 1).drop_last() =~= ov.take(i as int));
                    assert(ov.take(i + 1).last() == (o@[i as int].0@, o@[i as int].1@));
                }
                i += 1;
            }
            assert(ov.take(i as int) =~= ov);
            let r = JsonValue::Object(out);
            proof {
                lemma_object_view(r);
            }
            r
        },
        JsonValue::Null => JsonValue::Null,
        JsonValue::Bool(b) => JsonValue::Bool(*b),
        JsonValue::Number(t) => JsonValue::Number(t.clone()),
        JsonValue::String(s) => JsonValue::String(s.clone()),
    }
}

/// Appends how `serde_json` writes `c` inside a string literal.
pub fn push_escaped_char(out: &mut Vec<char>, c: char)
    ensures
        final(out)@ == old(out)@ + escape_char(c),
{
    let ghost before = out@;
    if c == '"' {
        out.push('\\');
        out.push('"');
    } else if c == '\\' {
        out.push('\\');
        out.push('\\');
    } else if c == '\u{8}' {
        out.push('\\');
        out.push('b');
    } else if c == '\u{c}' {
        out.push('\\');
        out.push('f');
    } else if c == '\n' {
        out.push('\\');
        out.push('n');
    } else if c == '\r' {
        out.push('\\');
        out.push('r');
    } else if c == '\t' {
        out.push('\\');
        out.push('t');
    } else if (c as u32) < 0x20 {
        let v: u32 = c as u32;
        out.push('\\');
        out.push('u');
        out.push('0');
        out.push('0');
        out.push(hex_digit((v / 16) as u8));
        out.push(hex_digit((v % 16) as u8));
    } else {
        out.push(c);
    }
    assert(out@ =~= before + escape_char(c));
}

/// Appends a JSON string literal for `s`.
pub fn push_json_string(out: &mut Vec<char>, s: &str)
    ensures
        final(out)@ == old(out)@ + json_string(s@),
{
    let ghost before = out@;
    let cs = chars_of(s);
    out.push('"');
    let mut i: usize = 0;
    while i < cs.len()
        invariant
            i <= cs.len(),
            out@ == before + seq!['"'] + escape_str(cs@.take(i as int)),
        decreases cs.len() - i,
    {
        assert(cs@.take(i + 1).drop_last() =~= cs@.take(i as int));
        assert(cs@.take(i + 1).last() == cs@[i as int]);
        push_escaped_char(out, cs[i]);
        i += 1;
    }
    assert(cs@.take(i as int) =~= s@);
    out.push('"');
    assert(out@ =~= before + json_string(s@));
}

/// Appends the compact JSON text of `v`.
pub fn write_json(v: &JsonValue, out: &mut Vec<char>)
    ensures
        final(out)@ == old(out)@ + json_text(v@),
    decreases v,
{
    let ghost before = out@;
    match v {
        JsonValue::Null => {
            out.push('n');
            out.push('u');
            out.push('l');
            out.push('l');
        },
        JsonValue::Bool(b) => {
            if *b {
                out.push('t');
                out.push('r');
                out.push('u');
                out.push('e');
            } else {
                out.push('f');
                out.push('a');
                out.push('l');
                out.push('s');
                out.push('e');
            }
        },
        JsonValue::Number(t) => {
            let cs = chars_of(t.as_str());
            let mut i: usize = 0;
            while i < cs.len()
                invariant
                    i <= cs.len(),
                    out@ == before + cs@.take(i as int),
                decreases cs.len() - i,
            {
                out.push(cs[i]);
                i += 1;
                assert(out@ =~= before + cs@.take(i as int));
            }
            assert(cs@.take(i as int) =~= cs@);
        },
        JsonValue::String(s) => {
            push_json_string(out, s.as_str());
        },
        JsonValue::Array(a) => {
            proof {
                lemma_array_view(*v);
            }
            let ghost av = items_view(a@);
            out.push('[');
            let mut i: usize = 0;
            while i < a.len()
                invariant
                    i <= a.len(),
                    *v == JsonValue::Array(*a),
                    av == items_view(a@),
                    out@ == before + seq!['['] + items_text(av.take(i as int)),
                decreases a.len() - i,
            {
                proof {
                    assert(decreases_to!(*v => v->Array_0));
                    assert(decreases_to!(a => a@));
                    assert(decreases_to!(a@ => a@[i as int]));
                    assert(av.take(i + 1).drop_last() =~= av.take(i as int));
                    assert(av.take(i + 1).last() == a@[i as int]@);
                    if i == 0 {
                        assert(av.take(1) =~= seq![a@[0]@]);
                    }
                }
                if i > 0 {
                    out.push(',');
                }
                write_json(&a[i], out);
                i += 1;
            }
            assert(av.take(i as int) =~= av);
            out.push(']');
        },
        JsonValue::Object(o) => {
            proof {
                lemma_object_view(*v);
            }
            let ghost ov = kv_view(o@);
            out.push('{');
            let mut i: usize = 0;
            while i < o.len()
                invariant
                    i <= o.len(),
                    *v == JsonValue::Object(*o),
                    ov == kv_view(o@),
                    out@ == before + seq!['{'] + entries_text(ov.take(i as int)),
                decreases o.len() - i,
            {
                proof {
                    assert(decreases_to!(*v => v->Object_0));
                    assert(decreases_to!(o => o@));
                    assert(decreases_to!(o@ => o@[i as int]));
                    assert(decreases_to!(o@[i as int] => o@[i as int].1));
                    assert(ov.take(i + 1).drop_last() =~= ov.take(i as int));
                    assert(ov.take(i + 1).last() == (o@[i as int].0@, o@[i as int].1@));
                    if i == 0 {
                        assert(ov.take(1) =~= seq![(o@[0].0@, o@[0].1@)]);
                    }
                }
                if i > 0 {
                    out.push(',');
                }
                push_json_string(out, o[i].0.as_str());
                out.push(':');
                write_json(&o[i].1, out);
                i += 1;
            }
            assert(ov.take(i as int) =~= ov);
            out.push('}');
        },
    }
    assert(out@ =~= before + json_text(v@));
}

/// The compact JSON text of `v` (entries in the order given).
pub fn json_to_string(v: &JsonValue) -> (s: String)
    ensures
        s@ == json_text(v@),
{
    let mut out: Vec<char> = Vec::new();
    write_json(v, &mut out);
    assert(out@ =~= json_text(v@));
    string_from_chars(&out)
}

// ---------------------------------------------------------------------------
// Canonical JSON of challenge parameters
// ---------------------------------------------------------------------------

/// A JSON number written in decimal.
pub open spec fn json_number(n: nat) -> Json {
    Json::Number(decimal(n))
}

/// One entry when the value is present, none otherwise.
pub open spec fn opt_entry(k: Seq<char>, v: Option<Json>) -> Seq<(Seq<char>, Json)> {
    match v {
        Some(x) => seq![(k, x)],
        None => Seq::empty(),
    }
}

/// The JSON object of the parameters: fields under their JSON names, in
/// alphabetical order, absent options left out.
pub open spec fn params_json(p: ChallengeParametersView) -> Json {
    Json::Object(
        seq![("algorithm"@, Json::String(p.algorithm)), ("cost"@, json_number(p.cost as nat))]
            + opt_entry(
            "data"@,
            match p.data {
                Some(d) => Some(Json::Object(d)),
                None => None,
            },
        ) + opt_entry(
            "expiresAt"@,
            match p.expires_at {
                Some(e) => Some(json_number(e as nat)),
                None => None,
            },
        ) + seq![
            ("keyLength"@, json_number(p.key_length as nat)),
            ("keyPrefix"@, Json::String(p.key_prefix)),
        ] + opt_entry(
            "keySignature"@,
            match p.key_signature {
                Some(k) => Some(Json::String(k)),
                None => None,
            },
        ) + opt_entry(
            "memoryCost"@,
            match p.memory_cost {
                Some(m) => Some(json_number(m as nat)),
                None => None,
            },
        ) + seq![("nonce"@, Json::String(p.nonce))] + opt_entry(
            "parallelism"@,
            match p.parallelism {
                Some(n) => Some(json_number(n as nat)),
                None => None,
            },
        ) + seq![("salt"@, Json::String(p.salt))],
    )
}

/// The canonical JSON text of the parameters: what challenge signatures cover.
pub open spec fn canonical_params(p: ChallengeParametersView) -> Seq<char> {
    canonical_text(params_json(p))
}

fn push_entry(out: &mut Vec<(String, JsonValue)>, k: &str, v: JsonValue)
    ensures
        kv_view(final(out)@) == kv_view(old(out)@) + seq![(k@, v@)],
{
    let ghost before = kv_view(out@);
    let ghost vv = v@;
    let key = k.to_string();
    out.push((key, v));
    assert(kv_view(out@) =~= before + seq![(k@, vv)]);
}

fn number_value(n: u64) -> (v: JsonValue)
    ensures
        v@ == json_number(n as nat),
{
    JsonValue::Number(decimal_string(n))
}

/// The entries of the parameters' JSON object, in alphabetical order.
#[verifier::spinoff_prover]
#[verifier::rlimit(40)]
fn parameter_entries(p: &ChallengeParameters) -> (e: Vec<(String, JsonValue)>)
    ensures
        kv_view(e@) == params_json(p@)->Object_0,
{
    let mut e: Vec<(String, JsonValue)> = Vec::new();
    assert(kv_view(e@) =~= Seq::<(Seq<char>, Json)>::empty());
    push_entry(&mut e, "algorithm", JsonValue::String(p.algorithm.clone()));
    push_entry(&mut e, "cost", number_value(p.cost as u64));
    match &p.data {
        Some(d) => {
            let o = JsonValue::Object(copy_entries(d));
            proof {
                lemma_object_view(o);
            }
            push_entry(&mut e, "data", o);
        },
        None => {},
    }
    match p.expires_at {
        Some(x) => push_entry(&mut e, "expiresAt", number_value(x)),
        None => {},
    }
    push_entry(&mut e, "keyLength", number_value(p.key_length as u64));
    push_entry(&mut e, "keyPrefix", JsonValue::String(p.key_prefix.clone()));
    match &p.key_signature {
        Some(k) => push_entry(&mut e, "keySignature", JsonValue::String(k.clone())),
        None => {},
    }
    match p.memory_cost {
        Some(m) => push_entry(&mut e, "memoryCost", number_value(m as u64)),
        None => {},
    }
    push_entry(&mut e, "nonce", JsonValue::String(p.nonce.clone()));
    match p.parallelism {
        Some(n) => push_entry(&mut e, "parallelism", number_value(n as u64)),
        None => {},
    }
    push_entry(&mut e, "salt", JsonValue::String(p.salt.clone()));
    assert(kv_view(e@) =~= params_json(p@)->Object_0);
    e
}

/// Canonical JSON of the parameters, with object keys sorted alphabetically
/// at all levels.
pub fn canonical_json(parameters: &ChallengeParameters) -> (s: String)
    ensures
        s@ == canonical_params(parameters@),
{
    let v = JsonValue::Object(parameter_entries(parameters));
    proof {
        lemma_object_view(v);
    }
    let sorted = sort_json_keys(v);
    json_to_string(&sorted)
}

} // verus!
