//! Structural equality of value trees, with map semantics for objects.
//!
//! Two objects are equal when they hold the same keys and equal values under
//! each key, whatever order their entries were inserted in; a later entry
//! with the same key overwrites the earlier one.  Arrays compare element by
//! element in order.  The equality decides exactly equality of the models of
//! [`crate::token`], which hold a `Map` for objects, and is exposed as
//! `PartialEq` so that `==` on trees means equality of models.

use vstd::prelude::*;

use crate::token::JsonArray;
use crate::token::JsonNumber;
use crate::token::JsonObject;
use crate::token::JsonToken;
use crate::token::SpecJson;
use crate::token::entries_view;
use crate::token::items_view;
use crate::token::kv_map;
use crate::token::token_view;

verus! {

/// A key is in the map of an entry sequence exactly when some entry holds it.
pub proof fn lemma_kv_map_contains(es: Seq<(Seq<char>, SpecJson)>, key: Seq<char>)
    ensures
        kv_map(es).contains_key(key) <==> exists|i: int|
            0 <= i < es.len() && (#[trigger] es[i]).0 == key,
    decreases es.len(),
{
    if es.len() > 0 {
        lemma_kv_map_contains(es.drop_last(), key);
        if kv_map(es).contains_key(key) {
            if es.last().0 == key {
                assert(es[es.len() - 1].0 == key);
            } else {
                let i = choose|i: int| 0 <= i < es.len() - 1 && (#[trigger] es.drop_last()[i]).0
                    == key;
                assert(es[i].0 == key);
            }
        }
        if exists|i: int| 0 <= i < es.len() && (#[trigger] es[i]).0 == key {
            let i = choose|i: int| 0 <= i < es.len() && (#[trigger] es[i]).0 == key;
            if i < es.len() - 1 {
                assert(es.drop_last()[i].0 == key);
            }
        }
    }
}

/// The value under a key is the one of the last entry that holds the key.
pub proof fn lemma_kv_map_last(es: Seq<(Seq<char>, SpecJson)>, i: int)
    requires
        0 <= i < es.len(),
        forall|j: int| i < j < es.len() ==> (#[trigger] es[j]).0 != es[i].0,
    ensures
        kv_map(es).contains_key(es[i].0),
        kv_map(es)[es[i].0] == es[i].1,
    decreases es.len(),
{
    if i == es.len() - 1 {
    } else {
        assert(es.drop_last()[i] == es[i]);
        assert(forall|j: int|
            i < j < es.len() - 1 ==> (#[trigger] es.drop_last()[j]).0 != es.drop_last()[i].0);
        lemma_kv_map_last(es.drop_last(), i);
        assert(es[es.len() - 1].0 != es[i].0);
    }
}

/// The model of an entry sequence, entry by entry.
pub proof fn lemma_entries_view_index(es: Seq<(String, JsonToken)>)
    ensures
        entries_view(es).len() == es.len(),
        forall|q: int|
            0 <= q < es.len() ==> #[trigger] entries_view(es)[q] == (
                es[q].0@,
                token_view(es[q].1),
            ),
    decreases es,
{
    if es.len() > 0 {
        lemma_entries_view_index(es.drop_last());
        assert(forall|q: int|
            0 <= q < es.len() - 1 ==> #[trigger] es.drop_last()[q] == es[q]);
    }
}

/// The model of an element sequence, element by element.
pub proof fn lemma_items_view_index(is: Seq<JsonToken>)
    ensures
        items_view(is).len() == is.len(),
        forall|q: int|
            0 <= q < is.len() ==> #[trigger] items_view(is)[q] == token_view(is[q]),
    decreases is,
{
    if is.len() > 0 {
        lemma_items_view_index(is.drop_last());
        assert(forall|q: int| 0 <= q < is.len() - 1 ==> #[trigger] is.drop_last()[q] == is[q]);
    }
}

/// The index of the last entry holding `key`, if any entry does.
fn last_key_index(v: &Vec<(String, JsonToken)>, key: &String) -> (r: Option<usize>)
    ensures
        (match r {
            Option::Some(i) => i < v@.len() && v@[i as int].0@ == key@ && (forall|j: int|
                i < j < v@.len() ==> (#[trigger] v@[j]).0@ != key@),
            Option::None => forall|j: int| 0 <= j < v@.len() ==> (#[trigger] v@[j]).0@ != key@,
        }),
{
    let mut i = v.len();
    while i > 0
        invariant
            i <= v@.len(),
            forall|j: int| i <= j < v@.len() ==> (#[trigger] v@[j]).0@ != key@,
        decreases i,
    {
        i = i - 1;
        if v[i].0 == *key {
            return Option::Some(i);
        }
    }
    Option::None
}

/// Whether two numbers are equal: same variant, same value or same lexeme.
pub fn number_eq(a: &JsonNumber, b: &JsonNumber) -> (r: bool)
    ensures
        r == (a@ == b@),
{
    match a {
        JsonNumber::Integer(ia) => match b {
            JsonNumber::Integer(ib) => *ia == *ib,
            _ => false,
        },
        JsonNumber::Float(fa) => match b {
            JsonNumber::Float(fb) => *fa == *fb,
            _ => false,
        },
    }
}

/// Whether two values have equal models: objects as maps, arrays in order.
pub fn token_eq(a: &JsonToken, b: &JsonToken) -> (r: bool)
    ensures
        r == (token_view(*a) == token_view(*b)),
    decreases *a,
{
    match a {
        JsonToken::Object(oa) => match b {
            JsonToken::Object(ob) => {
                proof {
                    assert(decreases_to!(*a => *oa));
                }
                object_eq(oa, ob)
            },
            _ => false,
        },
        JsonToken::Array(aa) => match b {
            JsonToken::Array(ab) => {
                proof {
                    assert(decreases_to!(*a => *aa));
                }
                array_eq(aa, ab)
            },
            _ => false,
        },
        JsonToken::String(sa) => match b {
            JsonToken::String(sb) => *sa == *sb,
            _ => false,
        },
        JsonToken::Number(na) => match b {
            JsonToken::Number(nb) => number_eq(na, nb),
            _ => false,
        },
        JsonToken::True => matches!(b, JsonToken::True),
        JsonToken::False => matches!(b, JsonToken::False),
        JsonToken::Null => matches!(b, JsonToken::Null),
    }
}

/// Whether two objects have equal models: the same keys, with equal values
/// under each key; an object with no entries equals only an object with no
/// entries.
pub fn object_eq(a: &JsonObject, b: &JsonObject) -> (r: bool)
    ensures
        r == (a@ == b@),
    decreases *a,
{
    match &a.keys {
        Option::None => matches!(&b.keys, Option::None),
        Option::Some(va) => match &b.keys {
            Option::Some(vb) => {
                proof {
                    assert(decreases_to!(*a => a.keys));
                    assert(decreases_to!(a.keys => *va));
                    assert(decreases_to!(*va => va@));
                }
                entry_maps_eq(va, vb)
            },
            Option::None => false,
        },
    }
}

/// Whether two arrays have equal models: the same length and equal elements
/// in order.
pub fn array_eq(a: &JsonArray, b: &JsonArray) -> (r: bool)
    ensures
        r == (a@ == b@),
    decreases *a,
{
    match &a.items {
        Option::None => matches!(&b.items, Option::None),
        Option::Some(va) => match &b.items {
            Option::Some(vb) => {
                proof {
                    assert(decreases_to!(*a => a.items));
                    assert(decreases_to!(a.items => *va));
                    assert(decreases_to!(*va => va@));
                }
                items_eq(va, vb)
            },
            Option::None => false,
        },
    }
}

/// Whether two entry vectors denote the same map.
#[verifier::loop_isolation(false)]
fn entry_maps_eq(x: &Vec<(String, JsonToken)>, y: &Vec<(String, JsonToken)>) -> (r: bool)
    ensures
        r == (kv_map(entries_view(x@)) == kv_map(entries_view(y@))),
    decreases x@,
{
    let ghost mx = kv_map(entries_view(x@));
    let ghost my = kv_map(entries_view(y@));
    proof {
        lemma_entries_view_index(x@);
        lemma_entries_view_index(y@);
    }
    let mut i: usize = 0;
    while i < x.len()
        invariant
            i <= x@.len(),
            forall|q: int|
                0 <= q < i ==> my.contains_key((#[trigger] x@[q]).0@) && mx.contains_key(
                    x@[q].0@,
                ) && mx[x@[q].0@] == my[x@[q].0@],
        decreases x@.len() - i,
    {
        let key = &x[i].0;
        proof {
            lemma_kv_map_contains(entries_view(x@), key@);
            lemma_kv_map_contains(entries_view(y@), key@);
            assert(entries_view(x@)[i as int].0 == key@);
        }
        let jy = match last_key_index(y, key) {
            Option::Some(j) => j,
            Option::None => {
                proof {
                    assert(forall|q: int|
                        0 <= q < entries_view(y@).len() ==> (#[trigger] entries_view(y@)[q]).0
                            != key@);
                    assert(!my.contains_key(key@));
                    assert(mx.contains_key(key@));
                }
                return false;
            },
        };
        let jx = match last_key_index(x, key) {
            Option::Some(j) => j,
            Option::None => {
                proof {
                    assert(x@[i as int].0@ == key@);
                    assert(false);
                }
                return false;
            },
        };
        proof {
            assert(forall|j: int|
                jx < j < entries_view(x@).len() ==> (#[trigger] entries_view(x@)[j]).0
                    != entries_view(x@)[jx as int].0);
            lemma_kv_map_last(entries_view(x@), jx as int);
            assert(forall|j: int|
                jy < j < entries_view(y@).len() ==> (#[trigger] entries_view(y@)[j]).0
                    != entries_view(y@)[jy as int].0);
            lemma_kv_map_last(entries_view(y@), jy as int);
            assert(decreases_to!(x@ => x@[jx as int]));
            assert(decreases_to!(x@[jx as int] => x@[jx as int].1));
        }
        let same = token_eq(&x[jx].1, &y[jy].1);
        if !same {
            proof {
                assert(mx[key@] == token_view(x@[jx as int].1));
                assert(my[key@] == token_view(y@[jy as int].1));
            }
            return false;
        }
        proof {
            assert(mx[x@[i as int].0@] == my[x@[i as int].0@]);
        }
        i = i + 1;
    }
    let mut j: usize = 0;
    while j < y.len()
        invariant
            j <= y@.len(),
            forall|q: int| 0 <= q < j ==> mx.contains_key((#[trigger] y@[q]).0@),
        decreases y@.len() - j,
    {
        let key = &y[j].0;
        proof {
            lemma_kv_map_contains(entries_view(x@), key@);
            lemma_kv_map_contains(entries_view(y@), key@);
            assert(entries_view(y@)[j as int].0 == key@);
        }
        match last_key_index(x, key) {
            Option::Some(_) => {},
            Option::None => {
                proof {
                    assert(forall|q: int|
                        0 <= q < entries_view(x@).len() ==> (#[trigger] entries_view(x@)[q]).0
                            != key@);
                    assert(!mx.contains_key(key@));
                    assert(my.contains_key(key@));
                }
                return false;
            },
        }
        j = j + 1;
    }
    proof {
        assert forall|key: Seq<char>| #[trigger] mx.dom().contains(key) implies my.dom().contains(
            key,
        ) && mx[key] == my[key] by {
            lemma_kv_map_contains(entries_view(x@), key);
            let q = choose|q: int|
                0 <= q < entries_view(x@).len() && (#[trigger] entries_view(x@)[q]).0 == key;
            assert(x@[q].0@ == key);
            assert(my.contains_key(key) && mx[key] == my[key]);
        }
        assert forall|key: Seq<char>| #[trigger] my.dom().contains(key) implies mx.dom().contains(
            key,
        ) by {
            lemma_kv_map_contains(entries_view(y@), key);
            let q = choose|q: int|
                0 <= q < entries_view(y@).len() && (#[trigger] entries_view(y@)[q]).0 == key;
            assert(y@[q].0@ == key);
            assert(mx.contains_key(key));
        }
        assert(mx.dom() =~= my.dom());
        assert(mx =~= my);
    }
    true
}

/// Whether two element vectors denote the same sequence.
#[verifier::loop_isolation(false)]
fn items_eq(x: &Vec<JsonToken>, y: &Vec<JsonToken>) -> (r: bool)
    ensures
        r == (items_view(x@) == items_view(y@)),
    decreases x@,
{
    proof {
        lemma_items_view_index(x@);
        lemma_items_view_index(y@);
    }
    if x.len() != y.len() {
        proof {
            assert(items_view(x@).len() != items_view(y@).len());
        }
        return false;
    }
    let mut i: usize = 0;
    while i < x.len()
        invariant
            i <= x@.len(),
            x@.len() == y@.len(),
            forall|q: int|
                0 <= q < i ==> #[trigger] items_view(x@)[q] == items_view(y@)[q],
        decreases x@.len() - i,
    {
        proof {
            assert(decreases_to!(x@ => x@[i as int]));
        }
        let same = token_eq(&x[i], &y[i]);
        if !same {
            proof {
                assert(items_view(x@)[i as int] == token_view(x@[i as int]));
                assert(items_view(y@)[i as int] == token_view(y@[i as int]));
            }
            return false;
        }
        i = i + 1;
    }
    proof {
        assert(items_view(x@) =~= items_view(y@));
    }
    true
}

impl PartialEq for JsonToken {
    fn eq(&self, other: &JsonToken) -> bool {
        token_eq(self, other)
    }
}

impl vstd::std_specs::cmp::PartialEqSpecImpl for JsonToken {
    open spec fn obeys_eq_spec() -> bool {
        true
    }

    open spec fn eq_spec(&self, other: &JsonToken) -> bool {
        self@ == other@
    }
}

impl PartialEq for JsonNumber {
    fn eq(&self, other: &JsonNumber) -> bool {
        number_eq(self, other)
    }
}

impl vstd::std_specs::cmp::PartialEqSpecImpl for JsonNumber {
    open spec fn obeys_eq_spec() -> bool {
        true
    }

    open spec fn eq_spec(&self, other: &JsonNumber) -> bool {
        self@ == other@
    }
}

impl PartialEq for JsonObject {
    fn eq(&self, other: &JsonObject) -> bool {
        object_eq(self, other)
    }
}

impl vstd::std_specs::cmp::PartialEqSpecImpl for JsonObject {
    open spec fn obeys_eq_spec() -> bool {
        true
    }

    open spec fn eq_spec(&self, other: &JsonObject) -> bool {
        self@ == other@
    }
}

impl PartialEq for JsonArray {
    fn eq(&self, other: &JsonArray) -> bool {
        array_eq(self, other)
    }
}

impl vstd::std_specs::cmp::PartialEqSpecImpl for JsonArray {
    open spec fn obeys_eq_spec() -> bool {
        true
    }

    open spec fn eq_spec(&self, other: &JsonArray) -> bool {
        self@ == other@
    }
}

} // verus!
