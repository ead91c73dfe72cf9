//! A JSON document model: the values that the settings store holds.
//!
//! Numbers keep the three shapes that a JSON number can take: non-negative
//! integers, negative integers, and floating-point values, the last held as
//! their IEEE-754 bit pattern. Object members are kept in ascending key order
//! (by code point, which is the byte order of their UTF-8 form), so that two
//! objects with the same members have the same view.
use vstd::prelude::*;
use crate::text::{chars_of, str_eq};

verus! {

#[derive(Clone, Copy, PartialEq, Eq, Structural, Debug)]
pub enum JsonNumber {
    PosInt(u64),
    NegInt(i64),
    Float(u64),
}

#[derive(Debug)]
pub enum Json {
    Null,
    Bool(bool),
    Number(JsonNumber),
    Text(String),
    Array(Vec<Json>),
    Object(Vec<(String, Json)>),
}

/// The mathematical value of a JSON document.
pub enum JsonV {
    Null,
    Bool(bool),
    Number(JsonNumber),
    Text(Seq<char>),
    Array(Seq<JsonV>),
    Object(Seq<(Seq<char>, JsonV)>),
}

/// The mathematical value of a document.
pub open spec fn json_view(j: Json) -> JsonV
    decreases j,
{
    match j {
        Json::Null => JsonV::Null,
        Json::Bool(b) => JsonV::Bool(b),
        Json::Number(n) => JsonV::Number(n),
        Json::Text(t) => JsonV::Text(t@),
        Json::Array(items) => JsonV::Array(
            Seq::new(
                items@.len(),
                |i: int|
                    if 0 <= i < items@.len() {
                        json_view(items@[i])
                    } else {
                        JsonV::Null
                    },
            ),
        ),
        Json::Object(entries) => JsonV::Object(
            Seq::new(
                entries@.len(),
                |i: int|
                    if 0 <= i < entries@.len() {
                        (entries@[i].0@, json_view(entries@[i].1))
                    } else {
                        (Seq::empty(), JsonV::Null)
                    },
            ),
        ),
    }
}

impl View for Json {
    type V = JsonV;

    open spec fn view(&self) -> JsonV {
        json_view(*self)
    }
}

/// The view of an object's member list.
pub open spec fn members_view(entries: Seq<(String, Json)>) -> Seq<(Seq<char>, JsonV)> {
    Seq::new(entries.len(), |i: int| (entries[i].0@, entries[i].1@))
}

pub proof fn lemma_object_view(entries: Vec<(String, Json)>)
    ensures
        Json::Object(entries)@ == JsonV::Object(members_view(entries@)),
{
    assert(JsonV::Object(members_view(entries@)) matches JsonV::Object(m) && m =~= members_view(
        entries@,
    ));
    let o = Json::Object(entries);
    assert(o@->Object_0 =~= members_view(entries@));
}

pub proof fn lemma_array_view(items: Vec<Json>)
    ensures
        Json::Array(items)@ == JsonV::Array(items@.map_values(|j: Json| j@)),
{
    let a = Json::Array(items);
    assert(a@->Array_0 =~= items@.map_values(|j: Json| j@));
}

/// Strict order of keys: code point by code point, a proper prefix first.
pub open spec fn key_lt(a: Seq<char>, b: Seq<char>) -> bool
    decreases a.len(),
{
    if a.len() == 0 {
        b.len() > 0
    } else if b.len() == 0 {
        false
    } else if a[0] != b[0] {
        (a[0] as int) < (b[0] as int)
    } else {
        key_lt(a.drop_first(), b.drop_first())
    }
}

pub proof fn lemma_key_lt_irreflexive(a: Seq<char>)
    ensures
        !key_lt(a, a),
    decreases a.len(),
{
    if a.len() > 0 {
        lemma_key_lt_irreflexive(a.drop_first());
    }
}

pub proof fn lemma_key_lt_transitive(a: Seq<char>, b: Seq<char>, c: Seq<char>)
    requires
        key_lt(a, b),
        key_lt(b, c),
    ensures
        key_lt(a, c),
    decreases a.len(),
{
    if a.len() > 0 && b.len() > 0 && c.len() > 0 && a[0] == b[0] && b[0] == c[0] {
        lemma_key_lt_transitive(a.drop_first(), b.drop_first(), c.drop_first());
    }
}

pub proof fn lemma_key_lt_total(a: Seq<char>, b: Seq<char>)
    ensures
        a == b || key_lt(a, b) || key_lt(b, a),
    decreases a.len(),
{
    if a.len() > 0 && b.len() > 0 && a[0] == b[0] {
        lemma_key_lt_total(a.drop_first(), b.drop_first());
        if a.drop_first() == b.drop_first() {
            assert forall|i: int| 0 <= i < a.len() implies a[i] == b[i] by {
                if i > 0 {
                    assert(a[i] == a.drop_first()[i - 1]);
                    assert(b[i] == b.drop_first()[i - 1]);
                }
            }
            assert(a =~= b);
        }
    } else if a.len() == 0 && b.len() == 0 {
        assert(a =~= b);
    } else if a.len() > 0 && b.len() > 0 {
        assert(a[0] as int != b[0] as int);
    }
}

pub proof fn lemma_key_lt_asymmetric(a: Seq<char>, b: Seq<char>)
    requires
        key_lt(a, b),
    ensures
        !key_lt(b, a),
{
    if key_lt(b, a) {
        lemma_key_lt_transitive(a, b, a);
        lemma_key_lt_irreflexive(a);
    }
}

pub open spec fn keys_sorted(s: Seq<(Seq<char>, JsonV)>) -> bool {
    forall|i: int, j: int| 0 <= i < j < s.len() ==> key_lt(#[trigger] s[i].0, #[trigger] s[j].0)
}

/// Every object in the document, at any depth, lists its members in key order.
pub open spec fn canonical(j: JsonV) -> bool
    decreases j,
{
    match j {
        JsonV::Array(items) => forall|i: int| 0 <= i < items.len() ==> canonical(#[trigger] items[i]),
        JsonV::Object(members) => keys_sorted(members) && forall|i: int|
            0 <= i < members.len() ==> canonical(#[trigger] members[i].1),
        _ => true,
    }
}

pub open spec fn is_first_key(s: Seq<(Seq<char>, JsonV)>, k: Seq<char>, i: int) -> bool {
    &&& 0 <= i < s.len()
    &&& s[i].0 == k
    &&& forall|j: int| 0 <= j < i ==> s[j].0 != k
}

/// The value of the member named `k`.
pub open spec fn lookup(s: Seq<(Seq<char>, JsonV)>, k: Seq<char>) -> Option<JsonV> {
    if exists|i: int| is_first_key(s, k, i) {
        Some(s[choose|i: int| is_first_key(s, k, i)].1)
    } else {
        None
    }
}

pub proof fn lemma_lookup_at(s: Seq<(Seq<char>, JsonV)>, k: Seq<char>, i: int)
    requires
        is_first_key(s, k, i),
    ensures
        lookup(s, k) == Some(s[i].1),
{
    let c = choose|c: int| is_first_key(s, k, c);
    assert(is_first_key(s, k, c));
    if c < i {
        assert(s[c].0 != k);
    } else if c > i {
        assert(s[i].0 != k);
    }
}

pub proof fn lemma_lookup_absent(s: Seq<(Seq<char>, JsonV)>, k: Seq<char>)
    requires
        forall|j: int| 0 <= j < s.len() ==> s[j].0 != k,
    ensures
        lookup(s, k) is None,
{
}

pub proof fn lemma_sorted_lookup(s: Seq<(Seq<char>, JsonV)>, i: int)
    requires
        keys_sorted(s),
        0 <= i < s.len(),
    ensures
        lookup(s, s[i].0) == Some(s[i].1),
{
    assert forall|j: int| 0 <= j < i implies s[j].0 != s[i].0 by {
        lemma_key_lt_irreflexive(s[i].0);
    }
    lemma_lookup_at(s, s[i].0, i);
}

/// A deep copy.
pub fn json_clone(a: &Json) -> (r: Json)
    ensures
        r@ == a@,
    decreases a,
{
    match a {
        Json::Null => Json::Null,
        Json::Bool(b) => Json::Bool(*b),
        Json::Number(n) => Json::Number(*n),
        Json::Text(t) => Json::Text(t.clone()),
        Json::Array(items) => {
            let mut out: Vec<Json> = Vec::new();
            let mut i: usize = 0;
            while i < items.len()
                invariant
                    i <= items@.len(),
                    out@.len() == i,
                    *a == Json::Array(*items),
                    forall|k: int| 0 <= k < i ==> (#[trigger] out@[k])@ == items@[k]@,
                decreases items@.len() - i,
            {
                proof {
                    assert(decreases_to!(*a => (*a)->Array_0));
                }
                out.push(json_clone(&items[i]));
                i += 1;
            }
            let r = Json::Array(out);
            assert(r@->Array_0 =~= a@->Array_0);
            r
        }
        Json::Object(entries) => {
            let mut out: Vec<(String, Json)> = Vec::new();
            let mut i: usize = 0;
            while i < entries.len()
                invariant
                    i <= entries@.len(),
                    out@.len() == i,
                    *a == Json::Object(*entries),
                    forall|k: int|
                        0 <= k < i ==> (#[trigger] out@[k]).0@ == entries@[k].0@ && out@[k].1@
                            == entries@[k].1@,
                decreases entries@.len() - i,
            {
                proof {
                    assert(decreases_to!(*a => (*a)->Object_0));
                }
                let key = entries[i].0.clone();
                let value = json_clone(&entries[i].1);
                out.push((key, value));
                i += 1;
            }
            let r = Json::Object(out);
            assert(r@->Object_0 =~= a@->Object_0);
            r
        }
    }
}

/// Structural equality of two documents: the JSON equality of canonical documents.
pub fn json_eq(a: &Json, b: &Json) -> (r: bool)
    ensures
        r == (a@ == b@),
    decreases a,
{
    match a {
        Json::Null => match b {
            Json::Null => true,
            _ => false,
        },
        Json::Bool(x) => match b {
            Json::Bool(y) => *x == *y,
            _ => false,
        },
        Json::Number(x) => match b {
            Json::Number(y) => *x == *y,
            _ => false,
        },
        Json::Text(x) => match b {
            Json::Text(y) => x.eq(y),
            _ => false,
        },
        Json::Array(x) => {
            let y = match b {
                Json::Array(y) => y,
                _ => return false,
            };
            if x.len() != y.len() {
                assert(a@->Array_0.len() != b@->Array_0.len());
                return false;
            }
            let mut i: usize = 0;
            while i < x.len()
                invariant
                    x@.len() == y@.len(),
                    i <= x@.len(),
                    *a == Json::Array(*x),
                    *b == Json::Array(*y),
                    forall|k: int| 0 <= k < i ==> (#[trigger] x@[k])@ == y@[k]@,
                decreases x@.len() - i,
            {
                proof {
                    assert(decreases_to!(*a => (*a)->Array_0));
                }
                if !json_eq(&x[i], &y[i]) {
                    assert(a@->Array_0[i as int] != b@->Array_0[i as int]);
                    return false;
                }
                i += 1;
            }
            assert(a@->Array_0 =~= b@->Array_0);
            true
        }
        Json::Object(x) => {
            let y = match b {
                Json::Object(y) => y,
                _ => return false,
            };
            if x.len() != y.len() {
                assert(a@->Object_0.len() != b@->Object_0.len());
                return false;
            }
            let mut i: usize = 0;
            while i < x.len()
                invariant
                    x@.len() == y@.len(),
                    i <= x@.len(),
                    *a == Json::Object(*x),
                    *b == Json::Object(*y),
                    forall|k: int|
                        0 <= k < i ==> (#[trigger] x@[k]).0@ == y@[k].0@ && x@[k].1@ == y@[k].1@,
                decreases x@.len() - i,
            {
                proof {
                    assert(decreases_to!(*a => (*a)->Object_0));
                }
                let equal = x[i].0.eq(&y[i].0) && json_eq(&x[i].1, &y[i].1);
                if !equal {
                    assert(a@->Object_0[i as int] != b@->Object_0[i as int]);
                    return false;
                }
                i += 1;
            }
            assert(a@->Object_0 =~= b@->Object_0);
            true
        }
    }
}


/// Whether `x` comes before `y` in key order.
pub fn chars_lt(x: &Vec<char>, y: &Vec<char>) -> (r: bool)
    ensures
        r == key_lt(x@, y@),
{
    let mut i: usize = 0;
    assert(x@.skip(0) =~= x@);
    assert(y@.skip(0) =~= y@);
    while i < x.len() && i < y.len()
        invariant
            i <= x@.len(),
            i <= y@.len(),
            forall|k: int| 0 <= k < i ==> x@[k] == y@[k],
            key_lt(x@, y@) == key_lt(x@.skip(i as int), y@.skip(i as int)),
        decreases x@.len() - i,
    {
        let c = x[i];
        let d = y[i];
        assert(x@.skip(i as int)[0] == c && y@.skip(i as int)[0] == d);
        if c != d {
            return char_before(c, d);
        }
        assert(x@.skip(i as int).drop_first() =~= x@.skip(i + 1));
        assert(y@.skip(i as int).drop_first() =~= y@.skip(i + 1));
        i += 1;
    }
    assert(x@.skip(i as int).len() == 0 || y@.skip(i as int).len() == 0);
    i == x.len() && i < y.len()
}

fn char_before(c: char, d: char) -> (r: bool)
    ensures
        r == ((c as int) < (d as int)),
{
    (c as u32) < (d as u32)
}

/// The position of the first member named `key`.
pub fn find_member(entries: &Vec<(String, Json)>, key: &str) -> (r: Option<usize>)
    ensures
        match r {
            Some(i) => is_first_key(members_view(entries@), key@, i as int),
            None => forall|j: int| 0 <= j < entries@.len() ==> entries@[j].0@ != key@,
        },
{
    let mut i: usize = 0;
    while i < entries.len()
        invariant
            i <= entries@.len(),
            forall|j: int| 0 <= j < i ==> entries@[j].0@ != key@,
        decreases entries@.len() - i,
    {
        if str_eq(entries[i].0.as_str(), key) {
            return Some(i);
        }
        i += 1;
    }
    None
}

/// The value of the member named `key`.
pub fn object_get<'a>(entries: &'a Vec<(String, Json)>, key: &str) -> (r: Option<&'a Json>)
    ensures
        match r {
            Some(v) => lookup(members_view(entries@), key@) == Some(v@),
            None => lookup(members_view(entries@), key@) is None,
        },
{
    match find_member(entries, key) {
        Some(i) => {
            proof {
                lemma_lookup_at(members_view(entries@), key@, i as int);
            }
            Some(&entries[i].1)
        }
        None => {
            proof {
                lemma_lookup_absent(members_view(entries@), key@);
            }
            None
        }
    }
}

proof fn lemma_sorted_lookup_key(s: Seq<(Seq<char>, JsonV)>, k: Seq<char>)
    requires
        keys_sorted(s),
    ensures
        (exists|j: int| 0 <= j < s.len() && s[j].0 == k) ==> lookup(s, k) == Some(
            s[choose|j: int| 0 <= j < s.len() && s[j].0 == k].1,
        ),
        (forall|j: int| 0 <= j < s.len() ==> s[j].0 != k) ==> lookup(s, k) is None,
{
    if exists|j: int| 0 <= j < s.len() && s[j].0 == k {
        let j = choose|j: int| 0 <= j < s.len() && s[j].0 == k;
        lemma_sorted_lookup(s, j);
    }
}

/// The members `m` (in key order) with `k` set to `v`: replaced where `k` is
/// a member, otherwise placed before the first greater key.
pub open spec fn object_with(m: Seq<(Seq<char>, JsonV)>, k: Seq<char>, v: JsonV) -> Seq<(Seq<char>, JsonV)>
    decreases m.len(),
{
    if m.len() == 0 {
        seq![(k, v)]
    } else if m[0].0 == k {
        seq![(k, v)] + m.drop_first()
    } else if key_lt(k, m[0].0) {
        seq![(k, v)] + m
    } else {
        seq![m[0]] + object_with(m.drop_first(), k, v)
    }
}

/// The members `m` without those named `k`.
pub open spec fn object_without(m: Seq<(Seq<char>, JsonV)>, k: Seq<char>) -> Seq<(Seq<char>, JsonV)>
    decreases m.len(),
{
    if m.len() == 0 {
        m
    } else if m[0].0 == k {
        object_without(m.drop_first(), k)
    } else {
        seq![m[0]] + object_without(m.drop_first(), k)
    }
}

proof fn lemma_object_with_at(m: Seq<(Seq<char>, JsonV)>, k: Seq<char>, v: JsonV, p: int)
    requires
        keys_sorted(m),
        0 <= p <= m.len(),
        forall|j: int| 0 <= j < p ==> key_lt(#[trigger] m[j].0, k),
        p < m.len() ==> !key_lt(m[p].0, k),
    ensures
        object_with(m, k, v) == if p < m.len() && m[p].0 == k {
            m.update(p, (k, v))
        } else {
            m.insert(p, (k, v))
        },
    decreases p,
{
    if m.len() == 0 {
        assert(m.insert(p, (k, v)) =~= seq![(k, v)]);
    } else if p == 0 {
        if m[0].0 == k {
            assert(seq![(k, v)] + m.drop_first() =~= m.update(0, (k, v)));
        } else {
            lemma_key_lt_total(m[0].0, k);
            assert(seq![(k, v)] + m =~= m.insert(0, (k, v)));
        }
    } else {
        assert(key_lt(m[0].0, k));
        lemma_key_lt_irreflexive(k);
        lemma_key_lt_asymmetric(m[0].0, k);
        let t = m.drop_first();
        assert forall|i: int, j: int| 0 <= i < j < t.len() implies key_lt(#[trigger] t[i].0, #[trigger] t[j].0) by {
            assert(t[i] == m[i + 1] && t[j] == m[j + 1]);
        }
        assert forall|j: int| 0 <= j < p - 1 implies key_lt(#[trigger] t[j].0, k) by {
            assert(t[j] == m[j + 1]);
        }
        lemma_object_with_at(t, k, v, p - 1);
        if p < m.len() && m[p].0 == k {
            assert(seq![m[0]] + t.update(p - 1, (k, v)) =~= m.update(p, (k, v)));
        } else {
            assert(seq![m[0]] + t.insert(p - 1, (k, v)) =~= m.insert(p, (k, v)));
        }
    }
}

proof fn lemma_object_without_at(m: Seq<(Seq<char>, JsonV)>, k: Seq<char>, p: int)
    requires
        0 <= p < m.len(),
        m[p].0 == k,
        forall|j: int| 0 <= j < m.len() && j != p ==> (#[trigger] m[j]).0 != k,
    ensures
        object_without(m, k) == m.remove(p),
    decreases m.len(),
{
    let t = m.drop_first();
    if p == 0 {
        lemma_object_without_absent(t, k);
        assert(t =~= m.remove(0));
    } else {
        assert forall|j: int| 0 <= j < t.len() && j != p - 1 implies (#[trigger] t[j]).0 != k by {
            assert(t[j] == m[j + 1]);
        }
        lemma_object_without_at(t, k, p - 1);
        assert(seq![m[0]] + t.remove(p - 1) =~= m.remove(p));
    }
}

proof fn lemma_object_without_absent(m: Seq<(Seq<char>, JsonV)>, k: Seq<char>)
    requires
        forall|j: int| 0 <= j < m.len() ==> (#[trigger] m[j]).0 != k,
    ensures
        object_without(m, k) == m,
    decreases m.len(),
{
    if m.len() > 0 {
        let t = m.drop_first();
        assert forall|j: int| 0 <= j < t.len() implies (#[trigger] t[j]).0 != k by {
            assert(t[j] == m[j + 1]);
        }
        lemma_object_without_absent(t, k);
        assert(seq![m[0]] + t =~= m);
    }
}

proof fn lemma_first_occurrence(s: Seq<(Seq<char>, JsonV)>, k: Seq<char>, j: int)
    requires
        0 <= j < s.len(),
        s[j].0 == k,
    ensures
        exists|i: int| is_first_key(s, k, i),
    decreases j,
{
    if s[0].0 == k {
        assert(is_first_key(s, k, 0));
    } else {
        let t = s.drop_first();
        assert(t[j - 1] == s[j]);
        lemma_first_occurrence(t, k, j - 1);
        let i = choose|i: int| is_first_key(t, k, i);
        assert forall|l: int| 0 <= l < i + 1 implies s[l].0 != k by {
            if l > 0 {
                assert(s[l] == t[l - 1]);
            }
        }
        assert(is_first_key(s, k, i + 1));
    }
}

/// The member `k` of a list that starts with `x`.
pub proof fn lemma_lookup_cons(x: (Seq<char>, JsonV), t: Seq<(Seq<char>, JsonV)>, k: Seq<char>)
    ensures
        lookup(seq![x] + t, k) == if x.0 == k {
            Some(x.1)
        } else {
            lookup(t, k)
        },
{
    let s = seq![x] + t;
    if x.0 == k {
        assert(is_first_key(s, k, 0));
        lemma_lookup_at(s, k, 0);
    } else if exists|j: int| 0 <= j < t.len() && t[j].0 == k {
        let j = choose|j: int| 0 <= j < t.len() && t[j].0 == k;
        lemma_first_occurrence(t, k, j);
        let i = choose|i: int| is_first_key(t, k, i);
        lemma_lookup_at(t, k, i);
        assert forall|l: int| 0 <= l < i + 1 implies s[l].0 != k by {
            if l > 0 {
                assert(s[l] == t[l - 1]);
            }
        }
        assert(s[i + 1] == t[i]);
        assert(is_first_key(s, k, i + 1));
        lemma_lookup_at(s, k, i + 1);
    } else {
        lemma_lookup_absent(t, k);
        assert forall|l: int| 0 <= l < s.len() implies s[l].0 != k by {
            if l > 0 {
                assert(s[l] == t[l - 1]);
            }
        }
        lemma_lookup_absent(s, k);
    }
}

/// Setting a member changes that member only.
pub proof fn lemma_object_with_lookup(m: Seq<(Seq<char>, JsonV)>, k: Seq<char>, v: JsonV, q: Seq<char>)
    ensures
        lookup(object_with(m, k, v), q) == if q == k {
            Some(v)
        } else {
            lookup(m, q)
        },
    decreases m.len(),
{
    let t = m.drop_first();
    if m.len() == 0 {
        lemma_lookup_cons((k, v), m, q);
        lemma_lookup_absent(m, q);
        assert(seq![(k, v)] + m =~= seq![(k, v)]);
    } else {
        assert(seq![m[0]] + t =~= m);
        lemma_lookup_cons(m[0], t, q);
        if m[0].0 == k {
            lemma_lookup_cons((k, v), t, q);
        } else if key_lt(k, m[0].0) {
            lemma_lookup_cons((k, v), m, q);
        } else {
            lemma_object_with_lookup(t, k, v, q);
            lemma_lookup_cons(m[0], object_with(t, k, v), q);
        }
    }
}

/// Removing a member changes that member only.
pub proof fn lemma_object_without_lookup(m: Seq<(Seq<char>, JsonV)>, k: Seq<char>, q: Seq<char>)
    ensures
        lookup(object_without(m, k), q) == if q == k {
            None
        } else {
            lookup(m, q)
        },
    decreases m.len(),
{
    let t = m.drop_first();
    if m.len() == 0 {
        lemma_lookup_absent(m, q);
    } else {
        assert(seq![m[0]] + t =~= m);
        lemma_lookup_cons(m[0], t, q);
        lemma_object_without_lookup(t, k, q);
        if m[0].0 != k {
            lemma_lookup_cons(m[0], object_without(t, k), q);
        }
    }
}

/// Sets the member `key` to `value`, keeping the members in key order.
pub fn object_insert(entries: &mut Vec<(String, Json)>, key: String, value: Json)
    requires
        keys_sorted(members_view(old(entries)@)),
    ensures
        members_view(final(entries)@) == object_with(members_view(old(entries)@), key@, value@),
        keys_sorted(members_view(final(entries)@)),
        lookup(members_view(final(entries)@), key@) == Some(value@),
        forall|k: Seq<char>|
            k != key@ ==> lookup(members_view(final(entries)@), k) == lookup(
                members_view(old(entries)@),
                k,
            ),
        forall|i: int|
            0 <= i < final(entries)@.len() ==> members_view(final(entries)@)[i] == (key@, value@)
                || members_view(old(entries)@).contains(members_view(final(entries)@)[i]),
{
    let ghost s = members_view(entries@);
    let kc = chars_of(key.as_str());
    let mut p: usize = 0;
    while p < entries.len() && chars_lt(&chars_of(entries[p].0.as_str()), &kc)
        invariant
            p <= entries@.len(),
            s == members_view(entries@),
            kc@ == key@,
            forall|j: int| 0 <= j < p ==> key_lt(s[j].0, key@),
        decreases entries@.len() - p,
    {
        p += 1;
    }
    let ghost kv = key@;
    let ghost vv = value@;
    proof {
        if p < s.len() {
            assert(!key_lt(s[p as int].0, kv));
        }
        lemma_object_with_at(s, kv, vv, p as int);
    }
    if p < entries.len() && entries[p].0.eq(&key) {
        entries.set(p, (key, value));
        proof {
            let n = members_view(entries@);
            assert(n =~= s.update(p as int, (kv, vv)));
            assert forall|i: int, j: int| 0 <= i < j < n.len() implies key_lt(
                #[trigger] n[i].0,
                #[trigger] n[j].0,
            ) by {
                assert(s[i].0 == n[i].0 && s[j].0 == n[j].0);
            }
            lemma_sorted_lookup(n, p as int);
            assert forall|k: Seq<char>| k != kv implies lookup(n, k) == lookup(s, k) by {
                lemma_sorted_lookup_key(n, k);
                lemma_sorted_lookup_key(s, k);
                if exists|j: int| 0 <= j < s.len() && s[j].0 == k {
                    let j = choose|j: int| 0 <= j < s.len() && s[j].0 == k;
                    assert(n[j].0 == k);
                    lemma_sorted_lookup(n, j);
                    lemma_sorted_lookup(s, j);
                } else {
                    assert forall|j: int| 0 <= j < n.len() implies n[j].0 != k by {
                        assert(j != p ==> n[j] == s[j]);
                    }
                }
            }
            assert forall|i: int| 0 <= i < n.len() implies n[i] == (kv, vv) || s.contains(n[i]) by {
                if i != p {
                    assert(n[i] == s[i]);
                }
            }
        }
    } else {
        proof {
            if p < s.len() {
                lemma_key_lt_total(s[p as int].0, kv);
            }
        }
        entries.insert(p, (key, value));
        proof {
            let n = members_view(entries@);
            assert(n =~= s.insert(p as int, (kv, vv)));
            assert forall|i: int, j: int| 0 <= i < j < n.len() implies key_lt(
                #[trigger] n[i].0,
                #[trigger] n[j].0,
            ) by {
                if j < p {
                    assert(n[i] == s[i] && n[j] == s[j]);
                } else if j == p {
                    assert(n[i] == s[i]);
                } else if i == p {
                    assert(n[j] == s[j - 1]);
                    if j - 1 > p {
                        lemma_key_lt_transitive(kv, s[p as int].0, s[j - 1].0);
                    }
                } else if i < p {
                    assert(n[i] == s[i] && n[j] == s[j - 1]);
                } else {
                    assert(n[i] == s[i - 1] && n[j] == s[j - 1]);
                }
            }
            lemma_sorted_lookup(n, p as int);
            assert forall|k: Seq<char>| k != kv implies lookup(n, k) == lookup(s, k) by {
                lemma_sorted_lookup_key(n, k);
                lemma_sorted_lookup_key(s, k);
                if exists|j: int| 0 <= j < s.len() && s[j].0 == k {
                    let j = choose|j: int| 0 <= j < s.len() && s[j].0 == k;
                    lemma_sorted_lookup(s, j);
                    if j < p {
                        assert(n[j] == s[j]);
                        lemma_sorted_lookup(n, j);
                    } else {
                        assert(n[j + 1] == s[j]);
                        lemma_sorted_lookup(n, j + 1);
                    }
                } else {
                    assert forall|j: int| 0 <= j < n.len() implies n[j].0 != k by {
                        if j < p {
                            assert(n[j] == s[j]);
                        } else if j > p {
                            assert(n[j] == s[j - 1]);
                        }
                    }
                }
            }
            assert forall|i: int| 0 <= i < n.len() implies n[i] == (kv, vv) || s.contains(n[i]) by {
                if i < p {
                    assert(n[i] == s[i]);
                } else if i > p {
                    assert(n[i] == s[i - 1]);
                }
            }
        }
    }
}

/// Removes the member `key`, if there is one.
pub fn object_remove(entries: &mut Vec<(String, Json)>, key: &str)
    requires
        keys_sorted(members_view(old(entries)@)),
    ensures
        members_view(final(entries)@) == object_without(members_view(old(entries)@), key@),
        keys_sorted(members_view(final(entries)@)),
        lookup(members_view(final(entries)@), key@) is None,
        forall|k: Seq<char>|
            k != key@ ==> lookup(members_view(final(entries)@), k) == lookup(
                members_view(old(entries)@),
                k,
            ),
        forall|i: int|
            0 <= i < final(entries)@.len() ==> members_view(old(entries)@).contains(
                members_view(final(entries)@)[i],
            ),
{
    let ghost s = members_view(entries@);
    match find_member(entries, key) {
        None => {
            proof {
                lemma_lookup_absent(s, key@);
                lemma_object_without_absent(s, key@);
                assert forall|i: int| 0 <= i < s.len() implies s.contains(s[i]) by {}
            }
        }
        Some(p) => {
            proof {
                assert forall|j: int| 0 <= j < s.len() && j != p implies (#[trigger] s[j]).0 != key@ by {
                    if j < p {
                    } else {
                        lemma_key_lt_irreflexive(s[j].0);
                    }
                }
                lemma_object_without_at(s, key@, p as int);
            }
            entries.remove(p);
            proof {
                let n = members_view(entries@);
                assert(n =~= s.remove(p as int));
                assert forall|i: int, j: int| 0 <= i < j < n.len() implies key_lt(
                    #[trigger] n[i].0,
                    #[trigger] n[j].0,
                ) by {
                    if j < p {
                        assert(n[i] == s[i] && n[j] == s[j]);
                    } else if i < p {
                        assert(n[i] == s[i] && n[j] == s[j + 1]);
                    } else {
                        assert(n[i] == s[i + 1] && n[j] == s[j + 1]);
                    }
                }
                assert forall|j: int| 0 <= j < n.len() implies n[j].0 != key@ by {
                    if j < p {
                        assert(n[j] == s[j]);
                        lemma_key_lt_irreflexive(s[j].0);
                    } else {
                        assert(n[j] == s[j + 1]);
                        lemma_key_lt_irreflexive(s[j + 1].0);
                    }
                }
                lemma_lookup_absent(n, key@);
                assert forall|k: Seq<char>| k != key@ implies lookup(n, k) == lookup(s, k) by {
                    lemma_sorted_lookup_key(n, k);
                    lemma_sorted_lookup_key(s, k);
                    if exists|j: int| 0 <= j < s.len() && s[j].0 == k {
                        let j = choose|j: int| 0 <= j < s.len() && s[j].0 == k;
                        lemma_sorted_lookup(s, j);
                        if j < p {
                            assert(n[j] == s[j]);
                            lemma_sorted_lookup(n, j);
                        } else {
                            assert(j != p);
                            assert(n[j - 1] == s[j]);
                            lemma_sorted_lookup(n, j - 1);
                        }
                    } else {
                        assert forall|j: int| 0 <= j < n.len() implies n[j].0 != k by {
                            if j < p {
                                assert(n[j] == s[j]);
                            } else {
                                assert(n[j] == s[j + 1]);
                            }
                        }
                    }
                }
                assert forall|i: int| 0 <= i < n.len() implies s.contains(n[i]) by {
                    if i < p {
                        assert(n[i] == s[i]);
                    } else {
                        assert(n[i] == s[i + 1]);
                    }
                }
            }
        }
    }
}


/// The view of an optional value.
pub open spec fn opt_view(j: Option<&Json>) -> Option<JsonV> {
    match j {
        Some(v) => Some(v@),
        None => None,
    }
}

/// The member `k` of an object; nothing for other values.
pub open spec fn field(j: JsonV, k: Seq<char>) -> Option<JsonV> {
    match j {
        JsonV::Object(members) => lookup(members, k),
        _ => None,
    }
}

/// The Boolean that a value holds.
pub open spec fn as_bool(j: Option<JsonV>) -> Option<bool> {
    match j {
        Some(JsonV::Bool(b)) => Some(b),
        _ => None,
    }
}

/// The non-negative integer that a value holds.
pub open spec fn as_u64(j: Option<JsonV>) -> Option<u64> {
    match j {
        Some(JsonV::Number(JsonNumber::PosInt(n))) => Some(n),
        _ => None,
    }
}

/// The text that a value holds.
pub open spec fn as_text(j: Option<JsonV>) -> Option<Seq<char>> {
    match j {
        Some(JsonV::Text(t)) => Some(t),
        _ => None,
    }
}

/// The member `key` of an object; nothing for other values.
pub fn get_field<'a>(j: &'a Json, key: &str) -> (r: Option<&'a Json>)
    ensures
        match r {
            Some(v) => field(j@, key@) == Some(v@),
            None => field(j@, key@) is None,
        },
{
    match j {
        Json::Object(entries) => {
            proof {
                lemma_object_view(*entries);
            }
            object_get(entries, key)
        },
        _ => None,
    }
}

} // verus!
