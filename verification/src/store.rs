//! The settings store: the JSON values kept under string keys, the requests
//! that windows send to change them, and their validation.
//!
//! Every change is written to disk before it is answered; when writing fails,
//! the values held in memory are put back as they were.
use vstd::prelude::*;
use crate::json::{
    canonical, field, get_field, json_clone, json_eq, key_lt, keys_sorted, lemma_array_view,
    lookup, members_view, object_get, object_insert, object_remove, object_with, object_without,
    opt_view, chars_lt, Json, JsonV,
};
use crate::text::{byte_len, byte_len_within, chars_of, str_eq, texts_view};

verus! {

pub const MAX_ENTRY_KEY_BYTES: usize = 256;

pub const MAX_VALUE_BYTES: usize = 2097152;

pub const MAX_STRING_ITEMS: usize = 10000;

pub const MAX_STRING_BYTES: usize = 4096;

/// The value under `k`, if there is one.
pub open spec fn entry(m: Map<Seq<char>, JsonV>, k: Seq<char>) -> Option<JsonV> {
    if m.dom().contains(k) {
        Some(m[k])
    } else {
        None
    }
}

/// The members of an object, as a map from key to value (the first member of
/// each name counts).
pub open spec fn members_map(s: Seq<(Seq<char>, JsonV)>) -> Map<Seq<char>, JsonV> {
    Map::new(|k: Seq<char>| lookup(s, k) is Some, |k: Seq<char>| lookup(s, k)->Some_0)
}

/// The in-memory contents of the settings store: each key once, in key
/// order, every value canonical.
pub struct Store {
    entries: Vec<(String, Json)>,
}

impl Store {
    #[verifier::type_invariant]
    spec fn well_formed(self) -> bool {
        &&& keys_sorted(members_view(self.entries@))
        &&& forall|i: int|
            0 <= i < self.entries@.len() ==> canonical(#[trigger] members_view(self.entries@)[i].1)
    }
}

impl View for Store {
    type V = Map<Seq<char>, JsonV>;

    closed spec fn view(&self) -> Map<Seq<char>, JsonV> {
        members_map(members_view(self.entries@))
    }
}

/// Sets (`Some`) or deletes (`None`) one key.
pub open spec fn change_one(m: Map<Seq<char>, JsonV>, c: (Seq<char>, Option<JsonV>)) -> Map<Seq<char>, JsonV> {
    match c.1 {
        Some(v) => m.insert(c.0, v),
        None => m.remove(c.0),
    }
}

/// The store after the changes `cs`, applied in order.
pub open spec fn changed(m: Map<Seq<char>, JsonV>, cs: Seq<(Seq<char>, Option<JsonV>)>) -> Map<Seq<char>, JsonV>
    decreases cs.len(),
{
    if cs.len() == 0 {
        m
    } else {
        change_one(changed(m, cs.drop_last()), cs.last())
    }
}

pub open spec fn opt_json_view(v: Option<Json>) -> Option<JsonV> {
    match v {
        Some(j) => Some(j@),
        None => None,
    }
}

/// The view of a list of changes.
pub open spec fn changes_view(cs: Seq<(String, Option<Json>)>) -> Seq<(Seq<char>, Option<JsonV>)> {
    Seq::new(cs.len(), |i: int| (cs[i].0@, opt_json_view(cs[i].1)))
}

/// Whether every value a change sets is canonical.
pub open spec fn changes_canonical(cs: Seq<(Seq<char>, Option<JsonV>)>) -> bool {
    forall|i: int| 0 <= i < cs.len() ==> ((#[trigger] cs[i]).1 matches Some(v) ==> canonical(v))
}

/// Whether some change is to key `k`.
pub open spec fn touches(cs: Seq<(Seq<char>, Option<JsonV>)>, k: Seq<char>) -> bool {
    exists|i: int| 0 <= i < cs.len() && (#[trigger] cs[i]).0 == k
}

pub proof fn lemma_changed_elsewhere(
    m: Map<Seq<char>, JsonV>,
    cs: Seq<(Seq<char>, Option<JsonV>)>,
    k: Seq<char>,
)
    requires
        !touches(cs, k),
    ensures
        entry(changed(m, cs), k) == entry(m, k),
    decreases cs.len(),
{
    if cs.len() > 0 {
        assert(!touches(cs.drop_last(), k)) by {
            if touches(cs.drop_last(), k) {
                let i = choose|i: int| 0 <= i < cs.drop_last().len() && cs.drop_last()[i].0 == k;
                assert(cs[i].0 == k);
            }
        }
        lemma_changed_elsewhere(m, cs.drop_last(), k);
        assert(cs[cs.len() - 1].0 != k);
    }
}

/// The changes that put back, for each key of `cs`, the value `m` had.
pub open spec fn undo_of(m: Map<Seq<char>, JsonV>, cs: Seq<(Seq<char>, Option<JsonV>)>) -> Seq<(Seq<char>, Option<JsonV>)> {
    Seq::new(cs.len(), |i: int| (cs[i].0, entry(m, cs[i].0)))
}

pub proof fn lemma_undo_restores(
    m: Map<Seq<char>, JsonV>,
    n: Map<Seq<char>, JsonV>,
    cs: Seq<(Seq<char>, Option<JsonV>)>,
    k: Seq<char>,
)
    ensures
        touches(cs, k) ==> entry(changed(n, undo_of(m, cs)), k) == entry(m, k),
        !touches(cs, k) ==> entry(changed(n, undo_of(m, cs)), k) == entry(n, k),
    decreases cs.len(),
{
    let u = undo_of(m, cs);
    if cs.len() > 0 {
        let init = cs.drop_last();
        assert(u.drop_last() =~= undo_of(m, init));
        lemma_undo_restores(m, n, init, k);
        let last = cs.last();
        if last.0 == k {
            assert(u.last() == (k, entry(m, k)));
            assert(touches(cs, k)) by {
                assert(cs[cs.len() - 1].0 == k);
            }
        } else {
            assert(touches(cs, k) == touches(init, k)) by {
                if touches(cs, k) {
                    let i = choose|i: int| 0 <= i < cs.len() && cs[i].0 == k;
                    assert(i != cs.len() - 1);
                    assert(init[i].0 == k);
                }
                if touches(init, k) {
                    let i = choose|i: int| 0 <= i < init.len() && init[i].0 == k;
                    assert(cs[i].0 == k);
                }
            }
        }
    }
}

/// Changing the keys of `cs` and then putting back what each held before
/// leaves the store as it was.
pub proof fn lemma_undo_after_changes(m: Map<Seq<char>, JsonV>, cs: Seq<(Seq<char>, Option<JsonV>)>)
    ensures
        changed(changed(m, cs), undo_of(m, cs)) == m,
{
    let n = changed(m, cs);
    let r = changed(n, undo_of(m, cs));
    assert forall|k: Seq<char>| entry(r, k) == entry(m, k) by {
        lemma_undo_restores(m, n, cs, k);
        if !touches(cs, k) {
            lemma_changed_elsewhere(m, cs, k);
        }
    }
    assert forall|k: Seq<char>| r.dom().contains(k) == m.dom().contains(k) by {
        assert(entry(r, k) == entry(m, k));
    }
    assert forall|k: Seq<char>| r.dom().contains(k) implies r[k] == m[k] by {
        assert(entry(r, k) == entry(m, k));
    }
    assert(r =~= m);
}

impl Store {
    /// An empty store.
    pub fn new() -> (s: Store)
        ensures
            s@ == Map::<Seq<char>, JsonV>::empty(),
    {
        let s = Store { entries: Vec::new() };
        assert(s@ =~= Map::<Seq<char>, JsonV>::empty());
        s
    }

    /// The entries, in key order.
    pub fn entries(&self) -> (r: &Vec<(String, Json)>)
        ensures
            members_map(members_view(r@)) == self@,
            keys_sorted(members_view(r@)),
    {
        proof {
            use_type_invariant(self);
        }
        &self.entries
    }

    /// The value under `key`.
    pub fn get_value(&self, key: &str) -> (r: Option<&Json>)
        ensures
            opt_view(r) == entry(self@, key@),
            r matches Some(v) ==> canonical(v@),
    {
        proof {
            use_type_invariant(self);
        }
        let r = object_get(&self.entries, key);
        proof {
            if let Some(v) = r {
                let s = members_view(self.entries@);
                let i = choose|i: int| crate::json::is_first_key(s, key@, i);
                crate::json::lemma_lookup_at(s, key@, i);
                assert(canonical(s[i].1));
            }
        }
        r
    }

    /// Sets `key` to `value`.
    pub fn set_value(&mut self, key: String, value: Json)
        requires
            canonical(value@),
        ensures
            final(self)@ == old(self)@.insert(key@, value@),
    {
        proof {
            use_type_invariant(&*self);
        }
        let ghost k = key@;
        let ghost v = value@;
        let ghost before = members_view(self.entries@);
        let mut entries: Vec<(String, Json)> = Vec::new();
        std::mem::swap(&mut entries, &mut self.entries);
        assert(members_view(entries@) == before);
        object_insert(&mut entries, key, value);
        let ghost after = members_view(entries@);
        assert forall|i: int| 0 <= i < entries@.len() implies canonical(#[trigger] after[i].1) by {
            if after[i] != (k, v) {
                let j = choose|j: int| 0 <= j < before.len() && before[j] == after[i];
            }
        }
        self.entries = entries;
        assert(self@ =~= old(self)@.insert(k, v));
    }

    /// Deletes `key`.
    pub fn delete_value(&mut self, key: &str)
        ensures
            final(self)@ == old(self)@.remove(key@),
    {
        proof {
            use_type_invariant(&*self);
        }
        let ghost before = members_view(self.entries@);
        let mut entries: Vec<(String, Json)> = Vec::new();
        std::mem::swap(&mut entries, &mut self.entries);
        assert(members_view(entries@) == before);
        object_remove(&mut entries, key);
        let ghost after = members_view(entries@);
        assert forall|i: int| 0 <= i < entries@.len() implies canonical(#[trigger] after[i].1) by {
            let j = choose|j: int| 0 <= j < before.len() && before[j] == after[i];
        }
        self.entries = entries;
        assert(self@ =~= old(self)@.remove(key@));
    }

    /// Sets or deletes one key.
    fn change(&mut self, key: &String, value: &Option<Json>)
        requires
            opt_json_view(*value) matches Some(v) ==> canonical(v),
        ensures
            final(self)@ == change_one(old(self)@, (key@, opt_json_view(*value))),
    {
        match value {
            Some(v) => self.set_value(key.clone(), json_clone(v)),
            None => self.delete_value(key.as_str()),
        }
    }
}

fn clone_opt(v: Option<&Json>) -> (r: Option<Json>)
    ensures
        opt_json_view(r) == opt_view(v),
{
    match v {
        Some(j) => Some(json_clone(j)),
        None => None,
    }
}

/// Applies `changes` in order, then saves the store with `save`; when saving
/// fails, every changed key gets back the value it had, and the error is
/// returned.
pub fn persist_changes_with_rollback<F: Fn(&Store) -> Result<(), String>>(
    store: &mut Store,
    changes: &Vec<(String, Option<Json>)>,
    save: &F,
) -> (r: Result<(), String>)
    requires
        changes_canonical(changes_view(changes@)),
        forall|s: &Store| save.requires((s,)),
    ensures
        r is Ok ==> final(store)@ == changed(old(store)@, changes_view(changes@)),
        r is Err ==> final(store)@ == old(store)@,
        exists|s: Store|
            s@ == changed(old(store)@, changes_view(changes@)) && save.ensures((&s,), r),
{
    let ghost original = store@;
    let ghost cs = changes_view(changes@);
    let mut previous: Vec<(String, Option<Json>)> = Vec::new();
    let mut i: usize = 0;
    while i < changes.len()
        invariant
            i <= changes@.len(),
            store@ == original,
            cs == changes_view(changes@),
            previous@.len() == i,
            changes_view(previous@) == undo_of(original, cs.take(i as int)),
            forall|j: int| 0 <= j < previous@.len() ==> (opt_json_view(#[trigger] previous@[j].1) matches Some(v) ==> canonical(v)),
        decreases changes@.len() - i,
    {
        let value = store.get_value(changes[i].0.as_str());
        let key = changes[i].0.clone();
        let prev = clone_opt(value);
        assert(key@ == cs[i as int].0);
        assert(opt_json_view(prev) == entry(original, cs[i as int].0));
        let ghost before = previous@;
        previous.push((key, prev));
        assert(previous@[i as int].0@ == cs[i as int].0);
        assert(changes_view(previous@) =~= undo_of(original, cs.take(i + 1))) by {
            assert forall|j: int| 0 <= j < i + 1 implies changes_view(previous@)[j] == undo_of(
                original,
                cs.take(i + 1),
            )[j] by {
                if j < i {
                    assert(previous@[j] == before[j]);
                    assert(changes_view(before)[j] == undo_of(original, cs.take(i as int))[j]);
                }
            }
        }
        i += 1;
    }
    assert(cs.take(changes@.len() as int) =~= cs);
    let mut i: usize = 0;
    while i < changes.len()
        invariant
            i <= changes@.len(),
            cs == changes_view(changes@),
            changes_canonical(cs),
            store@ == changed(original, cs.take(i as int)),
        decreases changes@.len() - i,
    {
        assert(cs[i as int] == (changes@[i as int].0@, opt_json_view(changes@[i as int].1)));
        store.change(&changes[i].0, &changes[i].1);
        assert(cs.take(i + 1).drop_last() =~= cs.take(i as int));
        i += 1;
    }
    assert(cs.take(changes@.len() as int) =~= cs);
    let ghost snapshot: Store = *store;
    let saved = save(&*store);
    assert(snapshot@ == changed(original, cs) && save.ensures((&snapshot,), saved));
    if saved.is_ok() {
        return saved;
    }
    let ghost applied = store@;
    let ghost undo = changes_view(previous@);
    let mut j: usize = 0;
    while j < previous.len()
        invariant
            j <= previous@.len(),
            undo == changes_view(previous@),
            forall|k: int| 0 <= k < previous@.len() ==> (opt_json_view(#[trigger] previous@[k].1) matches Some(v) ==> canonical(v)),
            store@ == changed(applied, undo.take(j as int)),
        decreases previous@.len() - j,
    {
        store.change(&previous[j].0, &previous[j].1);
        assert(undo.take(j + 1).drop_last() =~= undo.take(j as int));
        j += 1;
    }
    assert(undo.take(previous@.len() as int) =~= undo);
    proof {
        lemma_undo_after_changes(original, cs);
    }
    saved
}

/// Sets (`Some`) or deletes (`None`) the value under `key` and saves the
/// store; when saving fails, the previous value is put back.
pub fn persist_value_with_rollback<F: Fn(&Store) -> Result<(), String>>(
    store: &mut Store,
    key: &str,
    value: Option<Json>,
    save: &F,
) -> (r: Result<(), String>)
    requires
        opt_json_view(value) matches Some(v) ==> canonical(v),
        forall|s: &Store| save.requires((s,)),
    ensures
        r is Ok ==> final(store)@ == change_one(old(store)@, (key@, opt_json_view(value))),
        r is Err ==> final(store)@ == old(store)@,
        exists|s: Store|
            s@ == change_one(old(store)@, (key@, opt_json_view(value))) && save.ensures((&s,), r),
{
    let ghost v = opt_json_view(value);
    let mut changes: Vec<(String, Option<Json>)> = Vec::new();
    changes.push((String::from_str(key), value));
    let ghost cs = changes_view(changes@);
    assert(cs.len() == 1);
    assert(cs.drop_last() =~= Seq::<(Seq<char>, Option<JsonV>)>::empty());
    assert(cs.last() == (key@, v));
    assert(changed(old(store)@, cs) == change_one(old(store)@, (key@, v))) by {
        reveal_with_fuel(changed, 2);
    }
    persist_changes_with_rollback(store, &changes, save)
}

/// How a scoped store entry is to change.
#[derive(Debug)]
#[allow(inconsistent_fields)]
pub enum ScopedStoreMutation {
    Replace { value: Json },
    AddString { value: String },
    RemoveString { value: String },
    ClearStrings,
}

pub enum ScopedMutationV {
    Replace(JsonV),
    AddString(Seq<char>),
    RemoveString(Seq<char>),
    ClearStrings,
}

impl View for ScopedStoreMutation {
    type V = ScopedMutationV;

    open spec fn view(&self) -> ScopedMutationV {
        match self {
            ScopedStoreMutation::Replace { value } => ScopedMutationV::Replace(value@),
            ScopedStoreMutation::AddString { value } => ScopedMutationV::AddString(value@),
            ScopedStoreMutation::RemoveString { value } => ScopedMutationV::RemoveString(value@),
            ScopedStoreMutation::ClearStrings => ScopedMutationV::ClearStrings,
        }
    }
}

/// A change to one entry of a per-connection store value.
#[derive(Debug)]
pub struct ScopedStoreRequest {
    pub key: String,
    pub entry_key: String,
    pub mutation: ScopedStoreMutation,
}

/// The value a store request leaves behind.
#[derive(Debug)]
pub struct ScopedStoreResponse {
    pub value: Json,
}

/// The store keys whose values are maps from a connection to its state.
pub open spec fn scoped_key(key: Seq<char>) -> bool {
    key == "categoryConfig"@ || key == "categoryLastActivity"@ || key
        == "hiddenRecentTasksByConnection"@
}

/// Why a scoped request is refused before the store is read, if it is: an
/// unknown key, an empty or overlong entry key, or a mutation whose JSON
/// encoding takes `encoded_len` bytes, more than allowed.
pub open spec fn scoped_request_error(key: Seq<char>, entry_key: Seq<char>, encoded_len: nat) -> Option<Seq<char>> {
    if !scoped_key(key) {
        Some("Scoped store key is not allowed"@)
    } else if entry_key.len() == 0 || byte_len(entry_key) > MAX_ENTRY_KEY_BYTES {
        Some("Invalid scoped store entry key"@)
    } else if encoded_len > MAX_VALUE_BYTES {
        Some("Scoped store value is too large"@)
    } else {
        None
    }
}

/// Checks a scoped request whose mutation encodes to `encoded_len` bytes of
/// JSON.
pub fn validate_request(request: &ScopedStoreRequest, encoded_len: usize) -> (r: Result<(), String>)
    ensures
        match r {
            Ok(()) => scoped_request_error(request.key@, request.entry_key@, encoded_len as nat) is None,
            Err(e) => scoped_request_error(request.key@, request.entry_key@, encoded_len as nat)
                == Some(e@),
        },
{
    let key = request.key.as_str();
    if !(str_eq(key, "categoryConfig") || str_eq(key, "categoryLastActivity") || str_eq(
        key,
        "hiddenRecentTasksByConnection",
    )) {
        return Err(String::from_str("Scoped store key is not allowed"));
    }
    let entry_key = request.entry_key.as_str();
    if entry_key.unicode_len() == 0 || !byte_len_within(entry_key, MAX_ENTRY_KEY_BYTES) {
        return Err(String::from_str("Invalid scoped store entry key"));
    }
    if encoded_len > MAX_VALUE_BYTES {
        return Err(String::from_str("Scoped store value is too large"));
    }
    Ok(())
}

/// The `sourceUrl` member of a category configuration, if it has one.
pub open spec fn source_url(v: Option<JsonV>) -> Option<JsonV> {
    match v {
        Some(j) => field(j, "sourceUrl"@),
        None => None,
    }
}

/// Which window may change which scoped value: the settings window the
/// category configuration; the tray popup the category configuration without
/// changing its source URL, the last activities and the hidden tasks.
pub open spec fn scoped_window_error(
    window_label: Seq<char>,
    key: Seq<char>,
    previous: Option<JsonV>,
    next: JsonV,
) -> Option<Seq<char>> {
    if window_label == "settings"@ && key == "categoryConfig"@ {
        None
    } else if window_label == "tray-popup"@ && key == "categoryConfig"@ {
        if source_url(previous) == source_url(Some(next)) {
            None
        } else {
            Some("Tray window cannot change the category source URL"@)
        }
    } else if window_label == "tray-popup"@ && (key == "categoryLastActivity"@ || key
        == "hiddenRecentTasksByConnection"@) {
        None
    } else {
        Some("Window is not authorized to mutate this scoped store"@)
    }
}

fn same_opt(a: Option<&Json>, b: Option<&Json>) -> (r: bool)
    ensures
        r == (opt_view(a) == opt_view(b)),
{
    match a {
        Some(x) => match b {
            Some(y) => json_eq(x, y),
            None => false,
        },
        None => b.is_none(),
    }
}

fn source_url_of(v: Option<&Json>) -> (r: Option<&Json>)
    ensures
        opt_view(r) == source_url(opt_view(v)),
{
    match v {
        Some(j) => get_field(j, "sourceUrl"),
        None => None,
    }
}

/// Checks that `window_label` may change scoped value `key` from `previous`
/// to `next`.
pub fn validate_scoped_store_window(
    window_label: &str,
    key: &str,
    previous: Option<&Json>,
    next: &Json,
) -> (r: Result<(), String>)
    ensures
        match r {
            Ok(()) => scoped_window_error(window_label@, key@, opt_view(previous), next@) is None,
            Err(e) => scoped_window_error(window_label@, key@, opt_view(previous), next@) == Some(
                e@,
            ),
        },
{
    if str_eq(window_label, "settings") && str_eq(key, "categoryConfig") {
        return Ok(());
    }
    if str_eq(window_label, "tray-popup") && str_eq(key, "categoryConfig") {
        if same_opt(source_url_of(previous), source_url_of(Some(next))) {
            return Ok(());
        }
        return Err(String::from_str("Tray window cannot change the category source URL"));
    }
    if str_eq(window_label, "tray-popup") && (str_eq(key, "categoryLastActivity") || str_eq(
        key,
        "hiddenRecentTasksByConnection",
    )) {
        return Ok(());
    }
    Err(String::from_str("Window is not authorized to mutate this scoped store"))
}

pub open spec fn not_string_array_message() -> Seq<char> {
    "Scoped store entry is not a string array"@
}

/// The text of an item of a string array: a string of at most
/// `MAX_STRING_BYTES` bytes.
pub open spec fn string_item(j: JsonV) -> Option<Seq<char>> {
    match j {
        JsonV::Text(t) => if byte_len(t) <= MAX_STRING_BYTES {
            Some(t)
        } else {
            None
        },
        _ => None,
    }
}

/// The strings of a string-array entry; no entry counts as no strings.
pub open spec fn string_items_of(v: Option<JsonV>) -> Result<Seq<Seq<char>>, Seq<char>> {
    match v {
        None => Ok(Seq::empty()),
        Some(JsonV::Array(items)) => if forall|i: int|
            0 <= i < items.len() ==> string_item(#[trigger] items[i]) is Some {
            Ok(items.map_values(|j: JsonV| string_item(j)->Some_0))
        } else {
            Err(not_string_array_message())
        },
        Some(_) => Err(not_string_array_message()),
    }
}

/// The strings of a string-array entry.
pub fn string_items(value: Option<&Json>) -> (r: Result<Vec<String>, String>)
    ensures
        match r {
            Ok(items) => string_items_of(opt_view(value)) == Ok::<Seq<Seq<char>>, Seq<char>>(
                texts_view(items@),
            ),
            Err(e) => string_items_of(opt_view(value)) == Err::<Seq<Seq<char>>, Seq<char>>(e@),
        },
{
    match value {
        None => {
            let v: Vec<String> = Vec::new();
            assert(texts_view(v@) =~= Seq::<Seq<char>>::empty());
            Ok(v)
        },
        Some(Json::Array(items)) => {
            proof {
                lemma_array_view(*items);
            }
            let ghost iv = items@.map_values(|j: Json| j@);
            let mut out: Vec<String> = Vec::new();
            let mut i: usize = 0;
            while i < items.len()
                invariant
                    i <= items@.len(),
                    iv == items@.map_values(|j: Json| j@),
                    opt_view(value) == Some(JsonV::Array(iv)),
                    out@.len() == i,
                    forall|k: int| 0 <= k < i ==> string_item(#[trigger] iv[k]) is Some,
                    forall|k: int| 0 <= k < i ==> (#[trigger] out@[k])@ == string_item(iv[k])->Some_0,
                decreases items@.len() - i,
            {
                assert(iv[i as int] == items@[i as int]@);
                match &items[i] {
                    Json::Text(t) => {
                        if !byte_len_within(t.as_str(), MAX_STRING_BYTES) {
                            assert(string_item(iv[i as int]) is None);
                            return Err(String::from_str("Scoped store entry is not a string array"));
                        }
                        out.push(t.clone());
                    },
                    _ => {
                        assert(string_item(iv[i as int]) is None);
                        return Err(String::from_str("Scoped store entry is not a string array"));
                    },
                }
                i += 1;
            }
            assert(texts_view(out@) =~= iv.map_values(|j: JsonV| string_item(j)->Some_0));
            Ok(out)
        },
        Some(_) => Err(String::from_str("Scoped store entry is not a string array")),
    }
}

/// A JSON array of strings.
pub open spec fn text_array(items: Seq<Seq<char>>) -> JsonV {
    JsonV::Array(items.map_values(|t: Seq<char>| JsonV::Text(t)))
}

pub fn texts_to_json(items: Vec<String>) -> (r: Json)
    ensures
        r@ == text_array(texts_view(items@)),
        canonical(r@),
{
    let mut out: Vec<Json> = Vec::new();
    let mut i: usize = 0;
    while i < items.len()
        invariant
            i <= items@.len(),
            out@.len() == i,
            forall|k: int| 0 <= k < i ==> (#[trigger] out@[k])@ == JsonV::Text(items@[k]@),
        decreases items@.len() - i,
    {
        out.push(Json::Text(items[i].clone()));
        i += 1;
    }
    proof {
        lemma_array_view(out);
        assert(out@.map_values(|j: Json| j@) =~= texts_view(items@).map_values(
            |t: Seq<char>| JsonV::Text(t),
        ));
        let a = text_array(texts_view(items@));
        assert forall|k: int| 0 <= k < a->Array_0.len() implies canonical(#[trigger] a->Array_0[k]) by {
            assert(a->Array_0[k] == JsonV::Text(items@[k]@));
        }
    }
    Json::Array(out)
}

/// `items` without every occurrence of `v`, in order.
pub open spec fn without(items: Seq<Seq<char>>, v: Seq<char>) -> Seq<Seq<char>>
    decreases items.len(),
{
    if items.len() == 0 {
        items
    } else if items.last() == v {
        without(items.drop_last(), v)
    } else {
        without(items.drop_last(), v).push(items.last())
    }
}

/// What a scoped mutation makes of an entry (`None` when absent).
pub open spec fn mutated(entry: Option<JsonV>, m: ScopedMutationV) -> Result<JsonV, Seq<char>> {
    match m {
        ScopedMutationV::Replace(v) => Ok(v),
        ScopedMutationV::AddString(v) => if byte_len(v) > MAX_STRING_BYTES {
            Err("Scoped store string is too long"@)
        } else {
            match string_items_of(entry) {
                Err(e) => Err(e),
                Ok(items) => if items.contains(v) {
                    Ok(text_array(items))
                } else if items.len() >= MAX_STRING_ITEMS {
                    Err("Scoped store string array is too large"@)
                } else {
                    Ok(text_array(items.push(v)))
                },
            }
        },
        ScopedMutationV::RemoveString(v) => match string_items_of(entry) {
            Err(e) => Err(e),
            Ok(items) => Ok(text_array(without(items, v))),
        },
        ScopedMutationV::ClearStrings => Ok(JsonV::Array(Seq::empty())),
    }
}

fn contains_text(items: &Vec<String>, v: &str) -> (r: bool)
    ensures
        r == texts_view(items@).contains(v@),
{
    let mut i: usize = 0;
    while i < items.len()
        invariant
            i <= items@.len(),
            forall|k: int| 0 <= k < i ==> texts_view(items@)[k] != v@,
        decreases items@.len() - i,
    {
        if str_eq(items[i].as_str(), v) {
            assert(texts_view(items@)[i as int] == v@);
            return true;
        }
        i += 1;
    }
    false
}

fn remove_text(items: &Vec<String>, v: &str) -> (r: Vec<String>)
    ensures
        texts_view(r@) == without(texts_view(items@), v@),
{
    let mut out: Vec<String> = Vec::new();
    let mut i: usize = 0;
    while i < items.len()
        invariant
            i <= items@.len(),
            texts_view(out@) == without(texts_view(items@).take(i as int), v@),
        decreases items@.len() - i,
    {
        let ghost before = out@;
        assert(texts_view(items@).take(i + 1).drop_last() =~= texts_view(items@).take(i as int));
        if !str_eq(items[i].as_str(), v) {
            out.push(items[i].clone());
            assert(texts_view(out@) =~= texts_view(before).push(items@[i as int]@));
        }
        i += 1;
    }
    assert(texts_view(items@).take(items@.len() as int) =~= texts_view(items@));
    out
}

/// Whether an object's members and all their values are canonical.
pub open spec fn object_canonical(m: Seq<(Seq<char>, JsonV)>) -> bool {
    canonical(JsonV::Object(m))
}

pub open spec fn mutation_canonical(m: ScopedMutationV) -> bool {
    m matches ScopedMutationV::Replace(v) ==> canonical(v)
}

/// Applies `mutation` to the entry `entry_key` of a scoped value's members
/// and returns the entry's new value; on error the members are unchanged.
pub fn apply_mutation(
    map: &mut Vec<(String, Json)>,
    entry_key: &str,
    mutation: ScopedStoreMutation,
) -> (r: Result<Json, String>)
    requires
        object_canonical(members_view(old(map)@)),
        mutation_canonical(mutation@),
    ensures
        match r {
            Ok(v) => {
                &&& mutated(lookup(members_view(old(map)@), entry_key@), mutation@) == Ok::<
                    JsonV,
                    Seq<char>,
                >(v@)
                &&& members_map(members_view(final(map)@)) == members_map(
                    members_view(old(map)@),
                ).insert(entry_key@, v@)
                &&& members_view(final(map)@) == object_with(members_view(old(map)@), entry_key@, v@)
                &&& object_canonical(members_view(final(map)@))
                &&& canonical(v@)
            },
            Err(e) => {
                &&& mutated(lookup(members_view(old(map)@), entry_key@), mutation@) == Err::<
                    JsonV,
                    Seq<char>,
                >(e@)
                &&& final(map)@ == old(map)@
            },
        },
{
    let ghost entry = lookup(members_view(map@), entry_key@);
    let next: Json = match mutation {
        ScopedStoreMutation::Replace { value } => value,
        ScopedStoreMutation::AddString { value } => {
            if !byte_len_within(value.as_str(), MAX_STRING_BYTES) {
                return Err(String::from_str("Scoped store string is too long"));
            }
            let current = object_get(map, entry_key);
            assert(opt_view(current) == entry);
            let mut items = match string_items(current) {
                Ok(items) => items,
                Err(e) => return Err(e),
            };
            if !contains_text(&items, value.as_str()) {
                if items.len() >= MAX_STRING_ITEMS {
                    assert(texts_view(items@).len() >= MAX_STRING_ITEMS);
                    return Err(String::from_str("Scoped store string array is too large"));
                }
                let ghost before = texts_view(items@);
                items.push(value);
                assert(texts_view(items@) =~= before.push(mutation@->AddString_0));
            }
            texts_to_json(items)
        },
        ScopedStoreMutation::RemoveString { value } => {
            let current = object_get(map, entry_key);
            assert(opt_view(current) == entry);
            let items = match string_items(current) {
                Ok(items) => items,
                Err(e) => return Err(e),
            };
            texts_to_json(remove_text(&items, value.as_str()))
        },
        ScopedStoreMutation::ClearStrings => {
            let v: Vec<Json> = Vec::new();
            proof {
                lemma_array_view(v);
                assert(v@.map_values(|j: Json| j@) =~= Seq::<JsonV>::empty());
            }
            Json::Array(v)
        },
    };
    assert(mutated(entry, mutation@) == Ok::<JsonV, Seq<char>>(next@));
    let ghost old_members = members_view(map@);
    object_insert(map, String::from_str(entry_key), json_clone(&next));
    proof {
        let n = members_view(map@);
        assert forall|i: int| 0 <= i < n.len() implies canonical(#[trigger] n[i].1) by {
            if n[i] != (entry_key@, next@) {
                let j = choose|j: int| 0 <= j < old_members.len() && old_members[j] == n[i];
            }
        }
        assert(members_map(n) =~= members_map(old_members).insert(entry_key@, next@));
    }
    Ok(next)
}

/// The views of a list of documents.
pub open spec fn values_view(s: Seq<Json>) -> Seq<JsonV> {
    Seq::new(s.len(), |i: int| s[i]@)
}

/// Whether every document of a list is canonical.
pub open spec fn all_canonical(s: Seq<JsonV>) -> bool {
    forall|i: int| 0 <= i < s.len() ==> canonical(#[trigger] s[i])
}

/// A change to a store value that is an array of objects.
#[derive(Debug)]
#[allow(inconsistent_fields)]
pub enum ArrayStoreMutation {
    /// Append `value` unless an item has the members of `identity`; then, if
    /// there are more than `limit` items, keep the last `limit` of them, after
    /// ordering them by the string member `sort_field` when it is given.
    AppendUnique {
        value: Json,
        identity: Vec<(String, Json)>,
        limit: Option<usize>,
        sort_field: Option<String>,
    },
    /// Remove every item that has the members of `identity`.
    RemoveMatching { identity: Vec<(String, Json)> },
    Clear,
}

pub enum ArrayMutationV {
    AppendUnique {
        value: JsonV,
        identity: Seq<(Seq<char>, JsonV)>,
        limit: Option<usize>,
        sort_field: Option<Seq<char>>,
    },
    RemoveMatching { identity: Seq<(Seq<char>, JsonV)> },
    Clear,
}

impl View for ArrayStoreMutation {
    type V = ArrayMutationV;

    open spec fn view(&self) -> ArrayMutationV {
        match self {
            ArrayStoreMutation::AppendUnique { value, identity, limit, sort_field } =>
                ArrayMutationV::AppendUnique {
                value: value@,
                identity: members_view(identity@),
                limit: *limit,
                sort_field: match sort_field {
                    Some(f) => Some(f@),
                    None => None,
                },
            },
            ArrayStoreMutation::RemoveMatching { identity } => ArrayMutationV::RemoveMatching {
                identity: members_view(identity@),
            },
            ArrayStoreMutation::Clear => ArrayMutationV::Clear,
        }
    }
}

/// A change to one array-valued store key.
#[derive(Debug)]
pub struct ArrayStoreRequest {
    pub key: String,
    pub mutation: ArrayStoreMutation,
}

/// Whether `v` is an object holding every member of `identity`.
pub open spec fn matches_identity_of(v: JsonV, identity: Seq<(Seq<char>, JsonV)>) -> bool {
    match v {
        JsonV::Object(m) => forall|i: int|
            0 <= i < identity.len() ==> lookup(m, (#[trigger] identity[i]).0) == Some(identity[i].1),
        _ => false,
    }
}

/// Whether `value` is an object holding every member of `identity`.
pub fn matches_identity(value: &Json, identity: &Vec<(String, Json)>) -> (r: bool)
    ensures
        r == matches_identity_of(value@, members_view(identity@)),
{
    let members = match value {
        Json::Object(m) => m,
        _ => return false,
    };
    proof {
        crate::json::lemma_object_view(*members);
    }
    let ghost mv = members_view(members@);
    let ghost id = members_view(identity@);
    let mut i: usize = 0;
    while i < identity.len()
        invariant
            i <= identity@.len(),
            value@ == JsonV::Object(mv),
            mv == members_view(members@),
            id == members_view(identity@),
            forall|k: int| 0 <= k < i ==> lookup(mv, (#[trigger] id[k]).0) == Some(id[k].1),
        decreases identity@.len() - i,
    {
        let found = object_get(members, identity[i].0.as_str());
        assert(id[i as int] == (identity@[i as int].0@, identity@[i as int].1@));
        let same = match found {
            Some(v) => json_eq(v, &identity[i].1),
            None => false,
        };
        if !same {
            return false;
        }
        i += 1;
    }
    true
}

/// Whether some item matches `identity`.
pub open spec fn any_matches(items: Seq<JsonV>, identity: Seq<(Seq<char>, JsonV)>) -> bool {
    exists|i: int| 0 <= i < items.len() && matches_identity_of(#[trigger] items[i], identity)
}

/// The items that do not match `identity`, in order.
pub open spec fn unmatched(items: Seq<JsonV>, identity: Seq<(Seq<char>, JsonV)>) -> Seq<JsonV>
    decreases items.len(),
{
    if items.len() == 0 {
        items
    } else if matches_identity_of(items.last(), identity) {
        unmatched(items.drop_last(), identity)
    } else {
        unmatched(items.drop_last(), identity).push(items.last())
    }
}

/// The string member `f` of an item, or the empty string.
pub open spec fn sort_key(v: JsonV, f: Seq<char>) -> Seq<char> {
    match field(v, f) {
        Some(JsonV::Text(t)) => t,
        _ => Seq::empty(),
    }
}

/// `x` placed into `sorted` after every item whose key is not greater.
pub open spec fn insert_by_key(sorted: Seq<JsonV>, x: JsonV, f: Seq<char>) -> Seq<JsonV>
    decreases sorted.len(),
{
    if sorted.len() == 0 {
        seq![x]
    } else if key_lt(sort_key(x, f), sort_key(sorted.last(), f)) {
        insert_by_key(sorted.drop_last(), x, f).push(sorted.last())
    } else {
        sorted.push(x)
    }
}

/// The items in ascending order of their key; items with equal keys keep
/// their order (a stable sort).
pub open spec fn sorted_by_key(s: Seq<JsonV>, f: Seq<char>) -> Seq<JsonV>
    decreases s.len(),
{
    if s.len() == 0 {
        s
    } else {
        insert_by_key(sorted_by_key(s.drop_last(), f), s.last(), f)
    }
}

proof fn lemma_insert_at(s: Seq<JsonV>, x: JsonV, f: Seq<char>, p: int)
    requires
        0 <= p <= s.len(),
        p == 0 || !key_lt(sort_key(x, f), sort_key(s[p - 1], f)),
        forall|j: int| p <= j < s.len() ==> key_lt(sort_key(x, f), #[trigger] sort_key(s[j], f)),
    ensures
        insert_by_key(s, x, f) == s.insert(p, x),
    decreases s.len(),
{
    if s.len() == 0 {
        assert(s.insert(p, x) =~= seq![x]);
    } else if p == s.len() {
        assert(s.insert(p, x) =~= s.push(x));
    } else {
        assert(key_lt(sort_key(x, f), sort_key(s[s.len() - 1], f)));
        lemma_insert_at(s.drop_last(), x, f, p);
        assert(s.drop_last().insert(p, x).push(s.last()) =~= s.insert(p, x));
    }
}

proof fn lemma_insert_members(s: Seq<JsonV>, x: JsonV, f: Seq<char>)
    ensures
        forall|i: int|
            0 <= i < insert_by_key(s, x, f).len() ==> #[trigger] insert_by_key(s, x, f)[i] == x
                || s.contains(insert_by_key(s, x, f)[i]),
        insert_by_key(s, x, f).len() == s.len() + 1,
    decreases s.len(),
{
    if s.len() > 0 && key_lt(sort_key(x, f), sort_key(s.last(), f)) {
        lemma_insert_members(s.drop_last(), x, f);
        let r = insert_by_key(s, x, f);
        let q = insert_by_key(s.drop_last(), x, f);
        assert forall|i: int| 0 <= i < r.len() implies #[trigger] r[i] == x || s.contains(r[i]) by {
            if i < q.len() {
                assert(r[i] == q[i]);
                if q[i] != x {
                    let j = choose|j: int| 0 <= j < s.drop_last().len() && s.drop_last()[j] == q[i];
                    assert(s[j] == q[i]);
                }
            } else {
                assert(r[i] == s[s.len() - 1]);
            }
        }
    } else if s.len() > 0 {
        let r = insert_by_key(s, x, f);
        assert forall|i: int| 0 <= i < r.len() implies #[trigger] r[i] == x || s.contains(r[i]) by {
            if i < s.len() {
                assert(r[i] == s[i]);
            }
        }
    }
}

/// Every item of the sorted list comes from the list.
pub proof fn lemma_sorted_members(s: Seq<JsonV>, f: Seq<char>)
    ensures
        sorted_by_key(s, f).len() == s.len(),
        forall|i: int| 0 <= i < s.len() ==> s.contains(#[trigger] sorted_by_key(s, f)[i]),
    decreases s.len(),
{
    if s.len() > 0 {
        let t = sorted_by_key(s.drop_last(), f);
        lemma_sorted_members(s.drop_last(), f);
        lemma_insert_members(t, s.last(), f);
        assert forall|i: int| 0 <= i < s.len() implies s.contains(#[trigger] sorted_by_key(s, f)[i]) by {
            let y = sorted_by_key(s, f)[i];
            if y == s.last() {
                assert(s[s.len() - 1] == y);
            } else {
                let j = choose|j: int| 0 <= j < t.len() && t[j] == y;
                let k = choose|k: int| 0 <= k < s.drop_last().len() && s.drop_last()[k] == t[j];
                assert(s[k] == y);
            }
        }
    }
}

fn sort_key_exec(v: &Json, f: &str) -> (r: Vec<char>)
    ensures
        r@ == sort_key(v@, f@),
{
    match get_field(v, f) {
        Some(Json::Text(t)) => chars_of(t.as_str()),
        _ => Vec::new(),
    }
}

/// The items ordered by the string member `f` (see `sorted_by_key`).
pub fn sort_by_field(items: &Vec<Json>, f: &str) -> (r: Vec<Json>)
    ensures
        values_view(r@) == sorted_by_key(values_view(items@), f@),
{
    let ghost all = values_view(items@);
    let mut out: Vec<Json> = Vec::new();
    let mut keys: Vec<Vec<char>> = Vec::new();
    let mut i: usize = 0;
    while i < items.len()
        invariant
            i <= items@.len(),
            all == values_view(items@),
            values_view(out@) == sorted_by_key(all.take(i as int), f@),
            keys@.len() == out@.len(),
            forall|j: int| 0 <= j < keys@.len() ==> (#[trigger] keys@[j])@ == sort_key(out@[j]@, f@),
        decreases items@.len() - i,
    {
        let x = json_clone(&items[i]);
        let kx = sort_key_exec(&items[i], f);
        let ghost s = values_view(out@);
        let mut p: usize = out.len();
        while p > 0 && chars_lt(&kx, &keys[p - 1])
            invariant
                p <= out@.len(),
                keys@.len() == out@.len(),
                s == values_view(out@),
                forall|j: int| 0 <= j < keys@.len() ==> (#[trigger] keys@[j])@ == sort_key(out@[j]@, f@),
                kx@ == sort_key(x@, f@),
                forall|j: int| p <= j < s.len() ==> key_lt(sort_key(x@, f@), #[trigger] sort_key(s[j], f@)),
            decreases p,
        {
            assert(s[p - 1] == out@[p - 1]@);
            p -= 1;
        }
        proof {
            if p > 0 {
                assert(s[p - 1] == out@[p - 1]@);
            }
            lemma_insert_at(s, x@, f@, p as int);
            assert(all.take(i + 1).drop_last() =~= all.take(i as int));
            assert(all.take(i + 1).last() == x@);
        }
        let ghost ko = keys@;
        let ghost oo = out@;
        out.insert(p, x);
        keys.insert(p, kx);
        assert(values_view(out@) =~= s.insert(p as int, x@));
        assert forall|j: int| 0 <= j < keys@.len() implies (#[trigger] keys@[j])@ == sort_key(out@[j]@, f@) by {
            if j < p {
                assert(keys@[j] == ko[j] && out@[j] == oo[j]);
            } else if j > p {
                assert(keys@[j] == ko[j - 1] && out@[j] == oo[j - 1]);
            }
        }
        i += 1;
    }
    assert(all.take(items@.len() as int) =~= all);
    out
}

/// The items, ordered by `sort_field` when it is given, with all but the
/// last `limit` dropped.
pub open spec fn kept_last(items: Seq<JsonV>, limit: nat, sort_field: Option<Seq<char>>) -> Seq<JsonV> {
    let ordered = match sort_field {
        Some(f) => sorted_by_key(items, f),
        None => items,
    };
    ordered.subrange(items.len() - limit, items.len() as int)
}

/// What an array mutation answers and the items it leaves.
pub open spec fn array_mutated(items: Seq<JsonV>, m: ArrayMutationV) -> (Result<(), Seq<char>>, Seq<JsonV>) {
    match m {
        ArrayMutationV::AppendUnique { value, identity, limit, sort_field } => {
            if !(value is Object) || identity.len() == 0 {
                (Err("Invalid array store object mutation"@), items)
            } else {
                let appended = if any_matches(items, identity) {
                    items
                } else {
                    items.push(value)
                };
                match limit {
                    None => (Ok(()), appended),
                    Some(l) => if l == 0 || l > MAX_STRING_ITEMS {
                        (Err("Invalid array store limit"@), appended)
                    } else if appended.len() > l {
                        (Ok(()), kept_last(appended, l as nat, sort_field))
                    } else {
                        (Ok(()), appended)
                    },
                }
            }
        },
        ArrayMutationV::RemoveMatching { identity } => if identity.len() == 0 {
            (Err("Array store identity is required"@), items)
        } else {
            (Ok(()), unmatched(items, identity))
        },
        ArrayMutationV::Clear => (Ok(()), Seq::empty()),
    }
}

pub open spec fn array_mutation_canonical(m: ArrayMutationV) -> bool {
    m matches ArrayMutationV::AppendUnique { value, .. } ==> canonical(value)
}

/// Applies an array mutation (see `array_mutated`).
pub fn apply_array_mutation(items: &mut Vec<Json>, mutation: ArrayStoreMutation) -> (r: Result<(), String>)
    ensures
        array_mutated(values_view(old(items)@), mutation@) == (
            match r {
                Ok(()) => Ok::<(), Seq<char>>(()),
                Err(e) => Err::<(), Seq<char>>(e@),
            },
            values_view(final(items)@),
        ),
        all_canonical(values_view(old(items)@)) && array_mutation_canonical(mutation@) ==> all_canonical(
            values_view(final(items)@),
        ),
{
    let ghost before = values_view(items@);
    match mutation {
        ArrayStoreMutation::AppendUnique { value, identity, limit, sort_field } => {
            let is_object = match &value {
                Json::Object(_) => true,
                _ => false,
            };
            if !is_object || identity.len() == 0 {
                return Err(String::from_str("Invalid array store object mutation"));
            }
            let mut found = false;
            let mut i: usize = 0;
            while i < items.len()
                invariant_except_break
                    !found,
                    forall|k: int| 0 <= k < i ==> !matches_identity_of(#[trigger] before[k], members_view(identity@)),
                invariant
                    i <= items@.len(),
                    before == values_view(items@),
                ensures
                    found ==> any_matches(before, members_view(identity@)),
                    !found ==> !any_matches(before, members_view(identity@)),
                decreases items@.len() - i,
            {
                if matches_identity(&items[i], &identity) {
                    assert(matches_identity_of(before[i as int], members_view(identity@)));
                    found = true;
                    break;
                }
                i += 1;
            }
            let ghost vv = value@;
            if !found {
                items.push(value);
                assert(values_view(items@) =~= before.push(vv));
            }
            let ghost appended = values_view(items@);
            assert(appended == if any_matches(before, members_view(identity@)) {
                before
            } else {
                before.push(vv)
            });
            assert(all_canonical(before) && canonical(vv) ==> all_canonical(appended));
            match limit {
                None => Ok(()),
                Some(l) => {
                    if l == 0 || l > MAX_STRING_ITEMS {
                        return Err(String::from_str("Invalid array store limit"));
                    }
                    if items.len() > l {
                        let mut ordered = match &sort_field {
                            Some(f) => sort_by_field(items, f.as_str()),
                            None => {
                                let mut c: Vec<Json> = Vec::new();
                                std::mem::swap(&mut c, items);
                                c
                            },
                        };
                        let ghost ov = values_view(ordered@);
                        proof {
                            if let Some(f) = sort_field {
                                lemma_sorted_members(appended, f@);
                            }
                        }
                        let n = ordered.len();
                        let tail = ordered.split_off(n - l);
                        assert(values_view(tail@) =~= ov.subrange(n - l, n as int));
                        *items = tail;
                        proof {
                            assert(ov.len() == appended.len());
                            if all_canonical(before) && canonical(vv) {
                                assert forall|k: int| 0 <= k < ov.len() implies canonical(#[trigger] ov[k]) by {
                                    if sort_field is Some {
                                        let j = choose|j: int| 0 <= j < appended.len() && appended[j] == ov[k];
                                    }
                                }
                            }
                        }
                    }
                    Ok(())
                },
            }
        },
        ArrayStoreMutation::RemoveMatching { identity } => {
            if identity.len() == 0 {
                return Err(String::from_str("Array store identity is required"));
            }
            let mut kept: Vec<Json> = Vec::new();
            let mut i: usize = 0;
            while i < items.len()
                invariant
                    i <= items@.len(),
                    before == values_view(items@),
                    values_view(kept@) == unmatched(before.take(i as int), members_view(identity@)),
                    forall|k: int| 0 <= k < kept@.len() ==> before.contains(#[trigger] kept@[k]@),
                decreases items@.len() - i,
            {
                assert(before.take(i + 1).drop_last() =~= before.take(i as int));
                assert(before.take(i + 1).last() == items@[i as int]@);
                if !matches_identity(&items[i], &identity) {
                    let ghost kb = kept@;
                    kept.push(json_clone(&items[i]));
                    assert(values_view(kept@) =~= values_view(kb).push(items@[i as int]@));
                    assert(before[i as int] == items@[i as int]@);
                }
                i += 1;
            }
            assert(before.take(items@.len() as int) =~= before);
            *items = kept;
            proof {
                if all_canonical(before) {
                    let fv = values_view(items@);
                    assert forall|k: int| 0 <= k < fv.len() implies canonical(#[trigger] fv[k]) by {
                        let j = choose|j: int| 0 <= j < before.len() && before[j] == items@[k]@;
                    }
                }
            }
            Ok(())
        },
        ArrayStoreMutation::Clear => {
            items.clear();
            assert(values_view(items@) =~= Seq::<JsonV>::empty());
            Ok(())
        },
    }
}

/// A change to several settings at once, applied only while the settings
/// listed in `expected` still hold those values.
#[derive(Debug)]
pub struct SettingsPatchRequest {
    pub values: Vec<(String, Json)>,
    pub expected: Option<Vec<(String, Json)>>,
}

/// The settings after setting each member of `values`, in order.
pub open spec fn patched(m: Map<Seq<char>, JsonV>, values: Seq<(Seq<char>, JsonV)>) -> Map<Seq<char>, JsonV>
    decreases values.len(),
{
    if values.len() == 0 {
        m
    } else {
        patched(m, values.drop_last()).insert(values.last().0, values.last().1)
    }
}

/// The settings members after setting each member of `values`, in order.
pub open spec fn patched_members(m: Seq<(Seq<char>, JsonV)>, values: Seq<(Seq<char>, JsonV)>) -> Seq<(Seq<char>, JsonV)>
    decreases values.len(),
{
    if values.len() == 0 {
        m
    } else {
        object_with(patched_members(m, values.drop_last()), values.last().0, values.last().1)
    }
}

/// Whether every member of `expected` has that value in the settings.
pub open spec fn expectations_hold(settings: Seq<(Seq<char>, JsonV)>, expected: Seq<(Seq<char>, JsonV)>) -> bool {
    forall|i: int|
        0 <= i < expected.len() ==> lookup(settings, (#[trigger] expected[i]).0) == Some(expected[i].1)
}

pub open spec fn all_members_canonical(m: Seq<(Seq<char>, JsonV)>) -> bool {
    forall|i: int| 0 <= i < m.len() ==> canonical(#[trigger] m[i].1)
}

/// Sets every member of `values` in the settings object's members, unless a
/// member of `expected` no longer has its value there.
pub fn apply_settings_patch(
    settings: &mut Vec<(String, Json)>,
    values: Vec<(String, Json)>,
    expected: Option<&Vec<(String, Json)>>,
) -> (r: Result<(), String>)
    requires
        object_canonical(members_view(old(settings)@)),
        all_members_canonical(members_view(values@)),
    ensures
        match expected {
            Some(e) => r is Ok <==> expectations_hold(members_view(old(settings)@), members_view(e@)),
            None => r is Ok,
        },
        r is Ok ==> members_map(members_view(final(settings)@)) == patched(
            members_map(members_view(old(settings)@)),
            members_view(values@),
        ),
        r is Ok ==> members_view(final(settings)@) == patched_members(
            members_view(old(settings)@),
            members_view(values@),
        ),
        r is Ok ==> object_canonical(members_view(final(settings)@)),
        r is Err ==> final(settings)@ == old(settings)@,
        r matches Err(e) ==> e@ == "Settings changed before the patch could be applied"@,
{
    if let Some(exp) = expected {
        let mut i: usize = 0;
        while i < exp.len()
            invariant
                i <= exp@.len(),
                expected == Some(exp),
                settings@ == old(settings)@,
                forall|k: int|
                    0 <= k < i ==> lookup(members_view(settings@), (#[trigger] members_view(exp@)[k]).0)
                        == Some(members_view(exp@)[k].1),
            decreases exp@.len() - i,
        {
            let found = object_get(settings, exp[i].0.as_str());
            let same = match found {
                Some(v) => json_eq(v, &exp[i].1),
                None => false,
            };
            if !same {
                assert(members_view(exp@)[i as int] == (exp@[i as int].0@, exp@[i as int].1@));
                assert(lookup(members_view(settings@), members_view(exp@)[i as int].0) != Some(
                    members_view(exp@)[i as int].1,
                ));
                return Err(String::from_str("Settings changed before the patch could be applied"));
            }
            i += 1;
        }
    }
    let ghost start = members_map(members_view(settings@));
    let ghost start_members = members_view(settings@);
    let ghost vals = members_view(values@);
    let mut i: usize = 0;
    while i < values.len()
        invariant
            i <= values@.len(),
            vals == members_view(values@),
            all_members_canonical(vals),
            object_canonical(members_view(settings@)),
            members_map(members_view(settings@)) == patched(start, vals.take(i as int)),
            members_view(settings@) == patched_members(start_members, vals.take(i as int)),
        decreases values@.len() - i,
    {
        let ghost before = members_view(settings@);
        let key = values[i].0.clone();
        let value = json_clone(&values[i].1);
        assert(vals[i as int] == (key@, value@));
        object_insert(settings, key, value);
        proof {
            let n = members_view(settings@);
            assert forall|k: int| 0 <= k < n.len() implies canonical(#[trigger] n[k].1) by {
                if n[k] != vals[i as int] {
                    let j = choose|j: int| 0 <= j < before.len() && before[j] == n[k];
                }
            }
            assert(vals.take(i + 1).drop_last() =~= vals.take(i as int));
            assert(members_map(n) =~= members_map(before).insert(vals[i as int].0, vals[i as int].1));
        }
        i += 1;
    }
    assert(vals.take(values@.len() as int) =~= vals);
    Ok(())
}

/// The integer a JSON number holds, when it is a whole number that fits an
/// `i64`.
pub open spec fn as_i64(j: Option<JsonV>) -> Option<int> {
    match j {
        Some(JsonV::Number(crate::json::JsonNumber::PosInt(n))) => if n <= i64::MAX {
            Some(n as int)
        } else {
            None
        },
        Some(JsonV::Number(crate::json::JsonNumber::NegInt(n))) => Some(n as int),
        _ => None,
    }
}

pub open spec fn popup_dimension_key(k: Seq<char>) -> bool {
    k == "popupWidth"@ || k == "popupHeight"@
}

pub open spec fn connection_key(k: Seq<char>) -> bool {
    k == "activeConnectionId"@ || k == "kimaiUrl"@
}

pub open spec fn range_message(key: Seq<char>, minimum: nat, maximum: nat) -> Seq<char> {
    key + " must be between "@ + crate::text::decimal(minimum) + " and "@ + crate::text::decimal(
        maximum,
    )
}

/// Why the popup dimension `key` in `values` is refused, if it is.
pub open spec fn dimension_error(values: Seq<(Seq<char>, JsonV)>, key: Seq<char>, minimum: nat, maximum: nat) -> Option<Seq<char>> {
    match lookup(values, key) {
        None => None,
        Some(v) => match as_i64(Some(v)) {
            None => Some("Popup dimensions must be integers"@),
            Some(d) => if minimum <= d <= maximum {
                None
            } else {
                Some(range_message(key, minimum, maximum))
            },
        },
    }
}

/// The first connection in a `connections` array whose `id` is `id`.
pub open spec fn find_connection(connections: Seq<JsonV>, id: Seq<char>) -> Option<JsonV>
    decreases connections.len(),
{
    if connections.len() == 0 {
        None
    } else if crate::json::as_text(field(connections[0], "id"@)) == Some(id) {
        Some(connections[0])
    } else {
        find_connection(connections.drop_first(), id)
    }
}

/// Which settings a window may patch: the settings window any; the tray popup
/// either only its own size within bounds, or the active connection together
/// with that connection's URL exactly as configured.
pub open spec fn settings_window_error(
    window_label: Seq<char>,
    settings: Seq<(Seq<char>, JsonV)>,
    values: Seq<(Seq<char>, JsonV)>,
) -> Option<Seq<char>> {
    if window_label == "settings"@ {
        None
    } else if window_label != "tray-popup"@ {
        Some("Window is not authorized to patch these settings"@)
    } else if values.len() > 0 && forall|i: int|
        0 <= i < values.len() ==> popup_dimension_key((#[trigger] values[i]).0) {
        match dimension_error(values, "popupWidth"@, 300, 1000) {
            Some(e) => Some(e),
            None => dimension_error(values, "popupHeight"@, 320, 1200),
        }
    } else if exists|i: int| 0 <= i < values.len() && !connection_key((#[trigger] values[i]).0) {
        Some("Window is not authorized to patch these settings"@)
    } else {
        match crate::json::as_text(lookup(values, "activeConnectionId"@)) {
            None => Some("Tray settings patch must select a connection"@),
            Some(id) => {
                let connections = match lookup(settings, "connections"@) {
                    Some(JsonV::Array(cs)) => cs,
                    _ => Seq::empty(),
                };
                match find_connection(connections, id) {
                    None => Some("Tray settings patch selected an unknown connection"@),
                    Some(c) => match crate::json::as_text(field(c, "url"@)) {
                        None => Some("Selected connection URL is invalid"@),
                        Some(url) => if crate::json::as_text(lookup(values, "kimaiUrl"@)) == Some(url) {
                            None
                        } else {
                            Some("Tray settings patch URL does not match the selected connection"@)
                        },
                    },
                }
            },
        }
    }
}

fn as_i64_exec(j: Option<&Json>) -> (r: Option<i64>)
    ensures
        match r {
            Some(n) => as_i64(opt_view(j)) == Some(n as int),
            None => as_i64(opt_view(j)) is None,
        },
{
    match j {
        Some(Json::Number(crate::json::JsonNumber::PosInt(n))) => if *n <= 9223372036854775807u64 {
            Some(*n as i64)
        } else {
            None
        },
        Some(Json::Number(crate::json::JsonNumber::NegInt(n))) => Some(*n),
        _ => None,
    }
}

fn as_text_exec(j: Option<&Json>) -> (r: Option<&String>)
    ensures
        match r {
            Some(t) => crate::json::as_text(opt_view(j)) == Some(t@),
            None => crate::json::as_text(opt_view(j)) is None,
        },
{
    match j {
        Some(Json::Text(t)) => Some(t),
        _ => None,
    }
}

fn check_dimension(values: &Vec<(String, Json)>, key: &str, minimum: i64, maximum: i64) -> (r: Result<(), String>)
    requires
        0 <= minimum <= maximum,
    ensures
        match r {
            Ok(()) => dimension_error(members_view(values@), key@, minimum as nat, maximum as nat) is None,
            Err(e) => dimension_error(members_view(values@), key@, minimum as nat, maximum as nat) == Some(
                e@,
            ),
        },
{
    match object_get(values, key) {
        None => Ok(()),
        Some(v) => match as_i64_exec(Some(v)) {
            None => Err(String::from_str("Popup dimensions must be integers")),
            Some(d) => if minimum <= d && d <= maximum {
                Ok(())
            } else {
                let mut e = String::from_str(key);
                e.append(" must be between ");
                e.append(crate::text::decimal_string(minimum as u64).as_str());
                e.append(" and ");
                e.append(crate::text::decimal_string(maximum as u64).as_str());
                Err(e)
            },
        },
    }
}

fn find_connection_exec<'a>(connections: &'a Vec<Json>, id: &str) -> (r: Option<&'a Json>)
    ensures
        opt_view(r) == find_connection(values_view(connections@), id@),
{
    let ghost all = values_view(connections@);
    let mut i: usize = 0;
    assert(all.skip(0) =~= all);
    while i < connections.len()
        invariant
            i <= connections@.len(),
            all == values_view(connections@),
            find_connection(all, id@) == find_connection(all.skip(i as int), id@),
        decreases connections@.len() - i,
    {
        assert(all.skip(i as int)[0] == connections@[i as int]@);
        assert(all.skip(i as int).drop_first() =~= all.skip(i + 1));
        let matches = match as_text_exec(get_field(&connections[i], "id")) {
            Some(t) => str_eq(t.as_str(), id),
            None => false,
        };
        if matches {
            return Some(&connections[i]);
        }
        i += 1;
    }
    None
}

/// Checks that `window_label` may patch `values` into the settings whose
/// members are `settings`.
pub fn validate_settings_patch_window(
    window_label: &str,
    settings: &Vec<(String, Json)>,
    values: &Vec<(String, Json)>,
) -> (r: Result<(), String>)
    ensures
        match r {
            Ok(()) => settings_window_error(window_label@, members_view(settings@), members_view(
                values@,
            )) is None,
            Err(e) => settings_window_error(window_label@, members_view(settings@), members_view(
                values@,
            )) == Some(e@),
        },
{
    let ghost vals = members_view(values@);
    if str_eq(window_label, "settings") {
        return Ok(());
    }
    if !str_eq(window_label, "tray-popup") {
        return Err(String::from_str("Window is not authorized to patch these settings"));
    }
    let mut only_dimensions = values.len() > 0;
    let mut only_connection = true;
    let mut i: usize = 0;
    while i < values.len()
        invariant
            i <= values@.len(),
            vals == members_view(values@),
            only_dimensions == (values@.len() > 0 && forall|k: int|
                0 <= k < i ==> popup_dimension_key((#[trigger] vals[k]).0)),
            only_connection == (forall|k: int| 0 <= k < i ==> connection_key((#[trigger] vals[k]).0)),
        decreases values@.len() - i,
    {
        let k = values[i].0.as_str();
        assert(vals[i as int].0 == k@);
        if !(str_eq(k, "popupWidth") || str_eq(k, "popupHeight")) {
            only_dimensions = false;
        }
        if !(str_eq(k, "activeConnectionId") || str_eq(k, "kimaiUrl")) {
            only_connection = false;
        }
        i += 1;
    }
    if only_dimensions {
        match check_dimension(values, "popupWidth", 300, 1000) {
            Err(e) => return Err(e),
            Ok(()) => {},
        }
        return check_dimension(values, "popupHeight", 320, 1200);
    }
    if !only_connection {
        return Err(String::from_str("Window is not authorized to patch these settings"));
    }
    let connection_id = match as_text_exec(object_get(values, "activeConnectionId")) {
        Some(t) => t,
        None => return Err(String::from_str("Tray settings patch must select a connection")),
    };
    let empty: Vec<Json> = Vec::new();
    let conns = object_get(settings, "connections");
    let connections = match conns {
        Some(Json::Array(cs)) => {
            proof {
                lemma_array_view(*cs);
                assert(values_view(cs@) =~= cs@.map_values(|j: Json| j@));
            }
            cs
        },
        _ => {
            assert(values_view(empty@) =~= Seq::<JsonV>::empty());
            &empty
        },
    };
    let connection = match find_connection_exec(connections, connection_id.as_str()) {
        Some(c) => c,
        None => return Err(String::from_str("Tray settings patch selected an unknown connection")),
    };
    let url = match as_text_exec(get_field(connection, "url")) {
        Some(u) => u,
        None => return Err(String::from_str("Selected connection URL is invalid")),
    };
    let same = match as_text_exec(object_get(values, "kimaiUrl")) {
        Some(t) => str_eq(t.as_str(), url.as_str()),
        None => false,
    };
    if !same {
        return Err(String::from_str("Tray settings patch URL does not match the selected connection"));
    }
    Ok(())
}

/// Whether `k` is one of `keys`.
pub open spec fn listed(keys: Seq<Seq<char>>, k: Seq<char>) -> bool {
    keys.contains(k)
}

/// Whether a key of `m` is not among `keys`.
pub open spec fn has_unknown_key(m: Seq<(Seq<char>, JsonV)>, keys: Seq<Seq<char>>) -> bool {
    exists|i: int| 0 <= i < m.len() && !listed(keys, (#[trigger] m[i]).0)
}

/// Whether `expected` names a key that `values` does not set.
pub open spec fn expects_unset(values: Seq<(Seq<char>, JsonV)>, expected: Seq<(Seq<char>, JsonV)>) -> bool {
    exists|i: int| 0 <= i < expected.len() && lookup(values, (#[trigger] expected[i]).0) is None
}

/// Why a settings patch is refused before the store is read, if it is: an
/// empty patch; then for the values and then the expectations (the values
/// again when there are none), an encoding of more than `MAX_VALUE_BYTES`
/// bytes or a key that is not a settings key; then an expectation on a key
/// the patch does not set.  `values_bytes` and `expected_bytes` are the
/// lengths of the JSON encodings of the two maps.
pub open spec fn settings_request_error(
    values: Seq<(Seq<char>, JsonV)>,
    expected: Option<Seq<(Seq<char>, JsonV)>>,
    values_bytes: nat,
    expected_bytes: Option<nat>,
    settings_keys: Seq<Seq<char>>,
) -> Option<Seq<char>> {
    let second = match expected {
        Some(e) => e,
        None => values,
    };
    let second_bytes = match expected_bytes {
        Some(n) => n,
        None => values_bytes,
    };
    if values.len() == 0 {
        Some("Settings patch is empty"@)
    } else if values_bytes > MAX_VALUE_BYTES {
        Some("Settings patch is too large"@)
    } else if has_unknown_key(values, settings_keys) {
        Some("Unknown settings key"@)
    } else if second_bytes > MAX_VALUE_BYTES {
        Some("Settings patch is too large"@)
    } else if has_unknown_key(second, settings_keys) {
        Some("Unknown settings key"@)
    } else if expected matches Some(e) && expects_unset(values, e) {
        Some("Expected settings must be part of the patch"@)
    } else {
        None
    }
}

fn all_keys_listed(map: &Vec<(String, Json)>, keys: &Vec<String>) -> (r: bool)
    ensures
        r == forall|i: int| 0 <= i < map@.len() ==> listed(texts_view(keys@), (#[trigger] members_view(map@)[i]).0),
{
    let mut i: usize = 0;
    while i < map.len()
        invariant
            i <= map@.len(),
            forall|k: int| 0 <= k < i ==> listed(texts_view(keys@), (#[trigger] members_view(map@)[k]).0),
        decreases map@.len() - i,
    {
        assert(members_view(map@)[i as int].0 == map@[i as int].0@);
        if !contains_text(keys, map[i].0.as_str()) {
            return false;
        }
        i += 1;
    }
    true
}

/// Checks a settings patch whose values encode to `values_bytes` bytes of
/// JSON and whose expectations, if any, to `expected_bytes`, against the
/// known `settings_keys`.
pub fn validate_settings_patch_request(
    request: &SettingsPatchRequest,
    values_bytes: usize,
    expected_bytes: Option<usize>,
    settings_keys: &Vec<String>,
) -> (r: Result<(), String>)
    requires
        request.expected is Some <==> expected_bytes is Some,
    ensures
        match r {
            Ok(()) => settings_request_error(
                members_view(request.values@),
                match request.expected {
                    Some(e) => Some(members_view(e@)),
                    None => None,
                },
                values_bytes as nat,
                match expected_bytes {
                    Some(n) => Some(n as nat),
                    None => None,
                },
                texts_view(settings_keys@),
            ) is None,
            Err(e) => settings_request_error(
                members_view(request.values@),
                match request.expected {
                    Some(e) => Some(members_view(e@)),
                    None => None,
                },
                values_bytes as nat,
                match expected_bytes {
                    Some(n) => Some(n as nat),
                    None => None,
                },
                texts_view(settings_keys@),
            ) == Some(e@),
        },
{
    if request.values.len() == 0 {
        return Err(String::from_str("Settings patch is empty"));
    }
    if values_bytes > MAX_VALUE_BYTES {
        return Err(String::from_str("Settings patch is too large"));
    }
    if !all_keys_listed(&request.values, settings_keys) {
        return Err(String::from_str("Unknown settings key"));
    }
    let second = match &request.expected {
        Some(e) => e,
        None => &request.values,
    };
    let second_bytes = match expected_bytes {
        Some(n) => n,
        None => values_bytes,
    };
    if second_bytes > MAX_VALUE_BYTES {
        return Err(String::from_str("Settings patch is too large"));
    }
    if !all_keys_listed(second, settings_keys) {
        return Err(String::from_str("Unknown settings key"));
    }
    if let Some(e) = &request.expected {
        let ghost verdict = settings_request_error(
            members_view(request.values@),
            Some(members_view(e@)),
            values_bytes as nat,
            match expected_bytes {
                Some(n) => Some(n as nat),
                None => None,
            },
            texts_view(settings_keys@),
        );
        assert(verdict == if expects_unset(members_view(request.values@), members_view(e@)) {
            Some("Expected settings must be part of the patch"@)
        } else {
            None
        });
        let mut i: usize = 0;
        while i < e.len()
            invariant
                i <= e@.len(),
                request.expected == Some(*e),
                verdict == settings_request_error(
                    members_view(request.values@),
                    Some(members_view(e@)),
                    values_bytes as nat,
                    match expected_bytes {
                        Some(n) => Some(n as nat),
                        None => None,
                    },
                    texts_view(settings_keys@),
                ),
                verdict == if expects_unset(members_view(request.values@), members_view(e@)) {
                    Some("Expected settings must be part of the patch"@)
                } else {
                    None::<Seq<char>>
                },
                forall|k: int| 0 <= k < i ==> lookup(members_view(request.values@), (#[trigger] members_view(e@)[k]).0) is Some,
            decreases e@.len() - i,
        {
            assert(members_view(e@)[i as int].0 == e@[i as int].0@);
            if object_get(&request.values, e[i].0.as_str()).is_none() {
                assert(lookup(members_view(request.values@), members_view(e@)[i as int].0) is None);
                return Err(String::from_str("Expected settings must be part of the patch"));
            }
            i += 1;
        }
    }
    Ok(())
}

/// The favorites of one connection.
#[derive(Debug)]
pub struct FavoriteScopeRequest {
    pub connection_id: String,
    pub base_url: Option<String>,
}

/// Moving the favorites of one connection to another.
#[derive(Debug)]
pub struct MoveFavoritesRequest {
    pub from_connection_id: String,
    pub to_connection_id: String,
    pub from_base_url: Option<String>,
    pub to_base_url: Option<String>,
}

/// How many favorites belonged to the connection they were moved from.
#[derive(Debug)]
pub struct MoveFavoritesResponse {
    pub count: usize,
}

pub open spec fn opt_text(s: Option<&str>) -> Option<Seq<char>> {
    match s {
        Some(t) => Some(t@),
        None => None,
    }
}

pub open spec fn opt_string(s: Option<String>) -> Option<Seq<char>> {
    match s {
        Some(t) => Some(t@),
        None => None,
    }
}

/// Whether a favorite belongs to a connection: by its `connectionId` when it
/// has one; otherwise, for a connection with a base URL, when its own
/// `baseUrl` is that URL or missing.
pub open spec fn belongs_to(v: JsonV, id: Seq<char>, base: Option<Seq<char>>) -> bool {
    match v {
        JsonV::Object(m) => match crate::json::as_text(lookup(m, "connectionId"@)) {
            Some(stored) => stored == id,
            None => match base {
                Some(b) => match crate::json::as_text(lookup(m, "baseUrl"@)) {
                    Some(stored) => stored == b,
                    None => true,
                },
                None => false,
            },
        },
        _ => false,
    }
}

/// Whether `value` is a favorite of the connection `connection_id` with
/// base URL `base_url`.
pub fn belongs_to_connection(value: &Json, connection_id: &str, base_url: Option<&str>) -> (r: bool)
    ensures
        r == belongs_to(value@, connection_id@, opt_text(base_url)),
{
    let members = match value {
        Json::Object(m) => m,
        _ => return false,
    };
    proof {
        crate::json::lemma_object_view(*members);
    }
    match as_text_exec(object_get(members, "connectionId")) {
        Some(stored) => str_eq(stored.as_str(), connection_id),
        None => match base_url {
            Some(b) => match as_text_exec(object_get(members, "baseUrl")) {
                Some(stored) => str_eq(stored.as_str(), b),
                None => true,
            },
            None => false,
        },
    }
}

/// A legacy favorite of the connection, one without `connectionId`, tagged
/// with the connection and its base URL; any other item unchanged.
pub open spec fn claimed(v: JsonV, id: Seq<char>, base: Seq<char>) -> JsonV {
    match v {
        JsonV::Object(m) => if belongs_to(v, id, Some(base)) && lookup(m, "connectionId"@) is None {
            JsonV::Object(
                object_with(
                    object_with(m, "connectionId"@, JsonV::Text(id)),
                    "baseUrl"@,
                    JsonV::Text(base),
                ),
            )
        } else {
            v
        },
        _ => v,
    }
}

proof fn lemma_object_with_canonical(m: Seq<(Seq<char>, JsonV)>, k: Seq<char>, v: JsonV)
    requires
        canonical(JsonV::Object(m)),
        canonical(v),
    ensures
        canonical(JsonV::Object(object_with(m, k, v))),
    decreases m.len(),
{
    let r = object_with(m, k, v);
    let t = m.drop_first();
    if m.len() > 0 {
        assert(keys_sorted(t)) by {
            assert forall|i: int, j: int| 0 <= i < j < t.len() implies key_lt(#[trigger] t[i].0, #[trigger] t[j].0) by {
                assert(t[i] == m[i + 1] && t[j] == m[j + 1]);
            }
        }
        assert forall|i: int| 0 <= i < t.len() implies canonical(#[trigger] t[i].1) by {
            assert(t[i] == m[i + 1]);
        }
    }
    if m.len() == 0 {
    } else if m[0].0 == k {
        assert forall|i: int, j: int| 0 <= i < j < r.len() implies key_lt(#[trigger] r[i].0, #[trigger] r[j].0) by {
            assert(r[j] == m[j]);
            if i > 0 {
                assert(r[i] == m[i]);
            }
        }
        assert forall|i: int| 0 <= i < r.len() implies canonical(#[trigger] r[i].1) by {
            if i > 0 {
                assert(r[i] == m[i]);
            }
        }
    } else if key_lt(k, m[0].0) {
        assert forall|i: int, j: int| 0 <= i < j < r.len() implies key_lt(#[trigger] r[i].0, #[trigger] r[j].0) by {
            assert(r[j] == m[j - 1]);
            if i > 0 {
                assert(r[i] == m[i - 1]);
            } else if j > 1 {
                crate::json::lemma_key_lt_transitive(k, m[0].0, m[j - 1].0);
            }
        }
        assert forall|i: int| 0 <= i < r.len() implies canonical(#[trigger] r[i].1) by {
            if i > 0 {
                assert(r[i] == m[i - 1]);
            }
        }
    } else {
        lemma_object_with_canonical(t, k, v);
        let q = object_with(t, k, v);
        lemma_object_with_members(t, k, v);
        crate::json::lemma_key_lt_total(k, m[0].0);
        assert forall|i: int, j: int| 0 <= i < j < r.len() implies key_lt(#[trigger] r[i].0, #[trigger] r[j].0) by {
            assert(r[j] == q[j - 1]);
            if i > 0 {
                assert(r[i] == q[i - 1]);
            } else {
                assert(r[0] == m[0]);
                if q[j - 1].0 != k {
                    let l = choose|l: int| 0 <= l < t.len() && t[l].0 == q[j - 1].0;
                    assert(t[l] == m[l + 1]);
                }
            }
        }
        assert forall|i: int| 0 <= i < r.len() implies canonical(#[trigger] r[i].1) by {
            if i > 0 {
                assert(r[i] == q[i - 1]);
            }
        }
    }
}

proof fn lemma_object_with_members(m: Seq<(Seq<char>, JsonV)>, k: Seq<char>, v: JsonV)
    ensures
        forall|i: int|
            0 <= i < object_with(m, k, v).len() ==> (#[trigger] object_with(m, k, v)[i]).0 == k
                || exists|l: int| 0 <= l < m.len() && m[l].0 == object_with(m, k, v)[i].0,
    decreases m.len(),
{
    let r = object_with(m, k, v);
    if m.len() == 0 {
    } else if m[0].0 == k {
        assert forall|i: int| 0 <= i < r.len() implies (#[trigger] r[i]).0 == k || exists|l: int|
            0 <= l < m.len() && m[l].0 == r[i].0 by {
            if i > 0 {
                assert(r[i] == m[i]);
            }
        }
    } else if key_lt(k, m[0].0) {
        assert forall|i: int| 0 <= i < r.len() implies (#[trigger] r[i]).0 == k || exists|l: int|
            0 <= l < m.len() && m[l].0 == r[i].0 by {
            if i > 0 {
                assert(r[i] == m[i - 1]);
            }
        }
    } else {
        let t = m.drop_first();
        lemma_object_with_members(t, k, v);
        let q = object_with(t, k, v);
        assert forall|i: int| 0 <= i < r.len() implies (#[trigger] r[i]).0 == k || exists|l: int|
            0 <= l < m.len() && m[l].0 == r[i].0 by {
            if i == 0 {
                assert(m[0].0 == r[0].0);
            } else {
                assert(r[i] == q[i - 1]);
                if q[i - 1].0 != k {
                    let l = choose|l: int| 0 <= l < t.len() && t[l].0 == q[i - 1].0;
                    assert(m[l + 1].0 == r[i].0);
                }
            }
        }
    }
}

proof fn lemma_object_without_canonical(m: Seq<(Seq<char>, JsonV)>, k: Seq<char>)
    requires
        canonical(JsonV::Object(m)),
    ensures
        canonical(JsonV::Object(object_without(m, k))),
        forall|i: int| 0 <= i < object_without(m, k).len() ==> m.contains(#[trigger] object_without(m, k)[i]),
    decreases m.len(),
{
    if m.len() > 0 {
        let t = m.drop_first();
        assert(keys_sorted(t)) by {
            assert forall|i: int, j: int| 0 <= i < j < t.len() implies key_lt(#[trigger] t[i].0, #[trigger] t[j].0) by {
                assert(t[i] == m[i + 1] && t[j] == m[j + 1]);
            }
        }
        assert forall|i: int| 0 <= i < t.len() implies canonical(#[trigger] t[i].1) by {
            assert(t[i] == m[i + 1]);
        }
        lemma_object_without_canonical(t, k);
        let q = object_without(t, k);
        let r = object_without(m, k);
        assert forall|i: int| 0 <= i < q.len() implies m.contains(#[trigger] q[i]) by {
            let l = choose|l: int| 0 <= l < t.len() && t[l] == q[i];
            assert(m[l + 1] == q[i]);
        }
        if m[0].0 != k {
            assert forall|i: int, j: int| 0 <= i < j < r.len() implies key_lt(#[trigger] r[i].0, #[trigger] r[j].0) by {
                assert(r[j] == q[j - 1]);
                if i > 0 {
                    assert(r[i] == q[i - 1]);
                } else {
                    let l = choose|l: int| 0 <= l < m.len() && m[l] == q[j - 1];
                    if l == 0 {
                        let l2 = choose|l2: int| 0 <= l2 < t.len() && t[l2] == q[j - 1];
                        assert(m[l2 + 1] == q[j - 1]);
                        assert(key_lt(m[0].0, m[l2 + 1].0));
                    }
                }
            }
            assert forall|i: int| 0 <= i < r.len() implies canonical(#[trigger] r[i].1) by {
                if i > 0 {
                    assert(r[i] == q[i - 1]);
                    let l = choose|l: int| 0 <= l < m.len() && m[l] == q[i - 1];
                }
            }
            assert forall|i: int| 0 <= i < r.len() implies m.contains(#[trigger] r[i]) by {
                if i > 0 {
                    assert(r[i] == q[i - 1]);
                } else {
                    assert(m[0] == r[0]);
                }
            }
        } else {
            assert forall|i: int| 0 <= i < q.len() implies canonical(#[trigger] q[i].1) by {
                let l = choose|l: int| 0 <= l < m.len() && m[l] == q[i];
            }
        }
    }
}

fn text_json(t: &str) -> (r: Json)
    ensures
        r@ == JsonV::Text(t@),
        canonical(r@),
{
    Json::Text(String::from_str(t))
}

/// Tags the legacy favorites of a connection with it (see `claimed`).
pub fn claim_legacy_favorites(items: &mut Vec<Json>, connection_id: &str, base_url: &str)
    requires
        all_canonical(values_view(old(items)@)),
    ensures
        values_view(final(items)@) == values_view(old(items)@).map_values(
            |v: JsonV| claimed(v, connection_id@, base_url@),
        ),
        all_canonical(values_view(final(items)@)),
{
    let ghost before = values_view(items@);
    let mut i: usize = 0;
    while i < items.len()
        invariant
            i <= items@.len(),
            items@.len() == before.len(),
            all_canonical(values_view(items@)),
            forall|k: int| 0 <= k < i ==> (#[trigger] items@[k])@ == claimed(before[k], connection_id@, base_url@),
            forall|k: int| i <= k < items@.len() ==> (#[trigger] items@[k])@ == before[k],
        decreases items@.len() - i,
    {
        let claim = belongs_to_connection(&items[i], connection_id, Some(base_url)) && match &items[i] {
            Json::Object(m) => {
                proof {
                    crate::json::lemma_object_view(*m);
                }
                object_get(m, "connectionId").is_none()
            },
            _ => false,
        };
        proof {
            if let Json::Object(m) = items@[i as int] {
                crate::json::lemma_object_view(m);
            }
        }
        assert(values_view(items@)[i as int] == items@[i as int]@);
        if claim {
            let mut members = match &items[i] {
                Json::Object(m) => {
                    proof {
                        crate::json::lemma_object_view(*m);
                    }
                    clone_members(m)
                },
                _ => Vec::new(),
            };
            let ghost m0 = members_view(members@);
            object_insert(&mut members, String::from_str("connectionId"), text_json(connection_id));
            object_insert(&mut members, String::from_str("baseUrl"), text_json(base_url));
            proof {
                crate::json::lemma_object_view(members);
                lemma_object_with_canonical(m0, "connectionId"@, JsonV::Text(connection_id@));
                lemma_object_with_canonical(
                    object_with(m0, "connectionId"@, JsonV::Text(connection_id@)),
                    "baseUrl"@,
                    JsonV::Text(base_url@),
                );
            }
            let ghost iv = values_view(items@);
            items.set(i, Json::Object(members));
            assert forall|k: int| 0 <= k < items@.len() implies canonical(#[trigger] values_view(items@)[k]) by {
                if k != i {
                    assert(values_view(items@)[k] == iv[k]);
                }
            }
        }
        i += 1;
    }
    assert(values_view(items@) =~= before.map_values(|v: JsonV| claimed(v, connection_id@, base_url@)));
}

fn clone_members(m: &Vec<(String, Json)>) -> (r: Vec<(String, Json)>)
    ensures
        members_view(r@) == members_view(m@),
{
    let mut out: Vec<(String, Json)> = Vec::new();
    let mut i: usize = 0;
    while i < m.len()
        invariant
            i <= m@.len(),
            out@.len() == i,
            members_view(out@) == members_view(m@).take(i as int),
        decreases m@.len() - i,
    {
        let ghost before = out@;
        let k = String::from_str(m[i].0.as_str());
        let v = json_clone(&m[i].1);
        out.push((k, v));
        assert forall|j: int| 0 <= j < i + 1 implies members_view(out@)[j] == members_view(m@).take(i + 1)[j] by {
            if j < i {
                assert(out@[j] == before[j]);
                assert(members_view(before)[j] == members_view(m@).take(i as int)[j]);
            }
        }
        assert(members_view(out@) =~= members_view(m@).take(i + 1));
        i += 1;
    }
    assert(members_view(m@).take(m@.len() as int) =~= members_view(m@));
    out
}

/// The `key` member of a favorite, when it is a string.
pub open spec fn item_key(v: JsonV) -> Option<Seq<char>> {
    crate::json::as_text(field(v, "key"@))
}

/// Whether a favorite of the destination connection has key `k`.
pub open spec fn destination_has(items: Seq<JsonV>, id: Seq<char>, base: Option<Seq<char>>, k: Seq<char>) -> bool {
    exists|i: int|
        0 <= i < items.len() && belongs_to(#[trigger] items[i], id, base) && item_key(items[i]) == Some(k)
}

/// A favorite given to connection `id`: its `connectionId` set, and its
/// `baseUrl` set to `base`, or removed when there is none.
pub open spec fn rescoped(v: JsonV, id: Seq<char>, base: Option<Seq<char>>) -> JsonV {
    match v {
        JsonV::Object(m) => {
            let tagged = object_with(m, "connectionId"@, JsonV::Text(id));
            JsonV::Object(
                match base {
                    Some(b) => object_with(tagged, "baseUrl"@, JsonV::Text(b)),
                    None => object_without(tagged, "baseUrl"@),
                },
            )
        },
        _ => v,
    }
}

/// The favorites after moving those of the source connection: the others
/// stay as they are; a moved one whose key the destination already has is
/// dropped; the rest are given to the destination.  `all` is the whole list,
/// against which duplicates are judged.
pub open spec fn moved(
    all: Seq<JsonV>,
    items: Seq<JsonV>,
    from: (Seq<char>, Option<Seq<char>>),
    to: (Seq<char>, Option<Seq<char>>),
) -> Seq<JsonV>
    decreases items.len(),
{
    if items.len() == 0 {
        items
    } else {
        let rest = moved(all, items.drop_last(), from, to);
        let v = items.last();
        if !belongs_to(v, from.0, from.1) {
            rest.push(v)
        } else if item_key(v) matches Some(k) && destination_has(all, to.0, to.1, k) {
            rest
        } else {
            rest.push(rescoped(v, to.0, to.1))
        }
    }
}

/// How many favorites belong to the connection.
pub open spec fn belonging_count(items: Seq<JsonV>, id: Seq<char>, base: Option<Seq<char>>) -> nat
    decreases items.len(),
{
    if items.len() == 0 {
        0
    } else {
        belonging_count(items.drop_last(), id, base) + if belongs_to(items.last(), id, base) {
            1nat
        } else {
            0nat
        }
    }
}

pub open spec fn move_source(request: &MoveFavoritesRequest) -> (Seq<char>, Option<Seq<char>>) {
    (request.from_connection_id@, opt_string(request.from_base_url))
}

pub open spec fn move_target(request: &MoveFavoritesRequest) -> (Seq<char>, Option<Seq<char>>) {
    (request.to_connection_id@, opt_string(request.to_base_url))
}

fn opt_as_str(s: &Option<String>) -> (r: Option<&str>)
    ensures
        opt_text(r) == opt_string(*s),
{
    match s {
        Some(t) => Some(t.as_str()),
        None => None,
    }
}

fn item_key_exec(v: &Json) -> (r: Option<&String>)
    ensures
        match r {
            Some(k) => item_key(v@) == Some(k@),
            None => item_key(v@) is None,
        },
{
    as_text_exec(get_field(v, "key"))
}

/// Moves the favorites of one connection to another (see `moved`) and
/// answers how many belonged to the source.
pub fn move_favorites(items: &mut Vec<Json>, request: &MoveFavoritesRequest) -> (count: usize)
    requires
        all_canonical(values_view(old(items)@)),
    ensures
        values_view(final(items)@) == moved(
            values_view(old(items)@),
            values_view(old(items)@),
            move_source(request),
            move_target(request),
        ),
        count == belonging_count(values_view(old(items)@), request.from_connection_id@, opt_string(
            request.from_base_url,
        )),
        all_canonical(values_view(final(items)@)),
{
    let ghost all = values_view(items@);
    let from_base = opt_as_str(&request.from_base_url);
    let to_base = opt_as_str(&request.to_base_url);
    let ghost from = move_source(request);
    let ghost to = move_target(request);
    let mut count: usize = 0;
    let mut keys: Vec<String> = Vec::new();
    let mut i: usize = 0;
    while i < items.len()
        invariant
            i <= items@.len(),
            all == values_view(items@),
            from_base@ == from_base,
            opt_text(from_base) == from.1,
            opt_text(to_base) == to.1,
            from.0 == request.from_connection_id@,
            to.0 == request.to_connection_id@,
            count == belonging_count(all.take(i as int), from.0, from.1),
            count <= i,
            forall|k: Seq<char>|
                texts_view(keys@).contains(k) <==> (exists|j: int|
                    0 <= j < i && belongs_to(#[trigger] all[j], to.0, to.1) && item_key(all[j]) == Some(k)),
        decreases items@.len() - i,
    {
        assert(all.take(i + 1).drop_last() =~= all.take(i as int));
        assert(all[i as int] == items@[i as int]@);
        if belongs_to_connection(&items[i], request.from_connection_id.as_str(), from_base) {
            count = count + 1;
        }
        if belongs_to_connection(&items[i], request.to_connection_id.as_str(), to_base) {
            if let Some(k) = item_key_exec(&items[i]) {
                let ghost kb = texts_view(keys@);
                keys.push(k.clone());
                assert(texts_view(keys@) =~= kb.push(k@));
                assert forall|q: Seq<char>| texts_view(keys@).contains(q) <==> (exists|j: int|
                    0 <= j < i + 1 && belongs_to(#[trigger] all[j], to.0, to.1) && item_key(all[j]) == Some(q)) by {
                    let nk = texts_view(keys@);
                    if nk.contains(q) {
                        if q == k@ {
                            assert(belongs_to(all[i as int], to.0, to.1) && item_key(all[i as int]) == Some(q));
                        } else {
                            let l = choose|l: int| 0 <= l < nk.len() && nk[l] == q;
                            assert(l < kb.len());
                            assert(kb[l] == q);
                            assert(kb.contains(q));
                            let j = choose|j: int| 0 <= j < i && belongs_to(#[trigger] all[j], to.0, to.1) && item_key(all[j]) == Some(q);
                            assert(0 <= j < i + 1 && belongs_to(all[j], to.0, to.1) && item_key(all[j]) == Some(q));
                        }
                    }
                    if exists|j: int| 0 <= j < i + 1 && belongs_to(#[trigger] all[j], to.0, to.1) && item_key(all[j]) == Some(q) {
                        let j = choose|j: int| 0 <= j < i + 1 && belongs_to(#[trigger] all[j], to.0, to.1) && item_key(all[j]) == Some(q);
                        if j == i {
                            assert(q == k@);
                            assert(nk[kb.len() as int] == q);
                        } else {
                            assert(kb.contains(q));
                            let l = choose|l: int| 0 <= l < kb.len() && kb[l] == q;
                            assert(nk[l] == q);
                        }
                    }
                }
            } else {
                assert forall|q: Seq<char>| texts_view(keys@).contains(q) <==> (exists|j: int|
                    0 <= j < i + 1 && belongs_to(#[trigger] all[j], to.0, to.1) && item_key(all[j]) == Some(q)) by {
                    if exists|j: int| 0 <= j < i + 1 && belongs_to(#[trigger] all[j], to.0, to.1) && item_key(all[j]) == Some(q) {
                        let j = choose|j: int| 0 <= j < i + 1 && belongs_to(#[trigger] all[j], to.0, to.1) && item_key(all[j]) == Some(q);
                        assert(j != i);
                    }
                }
            }
        } else {
            assert forall|q: Seq<char>| texts_view(keys@).contains(q) <==> (exists|j: int|
                0 <= j < i + 1 && belongs_to(#[trigger] all[j], to.0, to.1) && item_key(all[j]) == Some(q)) by {
                if exists|j: int| 0 <= j < i + 1 && belongs_to(#[trigger] all[j], to.0, to.1) && item_key(all[j]) == Some(q) {
                    let j = choose|j: int| 0 <= j < i + 1 && belongs_to(#[trigger] all[j], to.0, to.1) && item_key(all[j]) == Some(q);
                    assert(j != i);
                }
            }
        }
        i += 1;
    }
    assert(all.take(items@.len() as int) =~= all);
    let mut out: Vec<Json> = Vec::new();
    let mut i: usize = 0;
    while i < items.len()
        invariant
            i <= items@.len(),
            all == values_view(items@),
            all_canonical(all),
            opt_text(from_base) == from.1,
            opt_text(to_base) == to.1,
            from.0 == request.from_connection_id@,
            to.0 == request.to_connection_id@,
            forall|k: Seq<char>| texts_view(keys@).contains(k) <==> destination_has(all, to.0, to.1, k),
            values_view(out@) == moved(all, all.take(i as int), from, to),
            all_canonical(values_view(out@)),
        decreases items@.len() - i,
    {
        assert(all.take(i + 1).drop_last() =~= all.take(i as int));
        assert(all.take(i + 1).last() == items@[i as int]@);
        assert(all[i as int] == items@[i as int]@);
        let ghost ob = values_view(out@);
        if !belongs_to_connection(&items[i], request.from_connection_id.as_str(), from_base) {
            out.push(json_clone(&items[i]));
            assert(values_view(out@) =~= ob.push(all[i as int]));
        } else {
            let duplicate = match item_key_exec(&items[i]) {
                Some(k) => contains_text(&keys, k.as_str()),
                None => false,
            };
            if !duplicate {
                let mut members = match &items[i] {
                    Json::Object(m) => {
                        proof {
                            crate::json::lemma_object_view(*m);
                        }
                        clone_members(m)
                    },
                    _ => Vec::new(),
                };
                let ghost m0 = members_view(members@);
                object_insert(
                    &mut members,
                    String::from_str("connectionId"),
                    text_json(request.to_connection_id.as_str()),
                );
                let ghost m1 = members_view(members@);
                proof {
                    lemma_object_with_canonical(m0, "connectionId"@, JsonV::Text(to.0));
                }
                match to_base {
                    Some(b) => {
                        object_insert(&mut members, String::from_str("baseUrl"), text_json(b));
                        proof {
                            lemma_object_with_canonical(m1, "baseUrl"@, JsonV::Text(b@));
                        }
                    },
                    None => {
                        object_remove(&mut members, "baseUrl");
                        proof {
                            lemma_object_without_canonical(m1, "baseUrl"@);
                        }
                    },
                }
                proof {
                    crate::json::lemma_object_view(members);
                }
                out.push(Json::Object(members));
                assert(values_view(out@) =~= ob.push(rescoped(all[i as int], to.0, to.1)));
            } else {
                assert(values_view(out@) =~= ob);
            }
        }
        i += 1;
    }
    assert(all.take(items@.len() as int) =~= all);
    *items = out;
    count
}

/// Moving a value of an earlier release of the application to where this
/// one keeps it.
#[derive(Debug)]
pub enum LegacyStoreMigration {
    CategoryConfig,
    CategoryLastActivity,
    HiddenTasks { connection_id: String },
    PausedTimer { generated_id: String },
    SettingsConnection { generated_id: String, name: String },
}

pub enum MigrationV {
    CategoryConfig,
    CategoryLastActivity,
    HiddenTasks(Seq<char>),
    PausedTimer(Seq<char>),
    SettingsConnection(Seq<char>, Seq<char>),
}

impl View for LegacyStoreMigration {
    type V = MigrationV;

    open spec fn view(&self) -> MigrationV {
        match self {
            LegacyStoreMigration::CategoryConfig => MigrationV::CategoryConfig,
            LegacyStoreMigration::CategoryLastActivity => MigrationV::CategoryLastActivity,
            LegacyStoreMigration::HiddenTasks { connection_id } => MigrationV::HiddenTasks(
                connection_id@,
            ),
            LegacyStoreMigration::PausedTimer { generated_id } => MigrationV::PausedTimer(
                generated_id@,
            ),
            LegacyStoreMigration::SettingsConnection { generated_id, name } =>
                MigrationV::SettingsConnection(generated_id@, name@),
        }
    }
}

/// A request to migrate one legacy value.
#[derive(Debug)]
pub struct LegacyStoreMigrationRequest {
    pub migration: LegacyStoreMigration,
}

/// An identifier or name that may be stored: not empty, at most
/// `MAX_ENTRY_KEY_BYTES` bytes.
pub open spec fn valid_id(id: Seq<char>) -> bool {
    id.len() > 0 && byte_len(id) <= MAX_ENTRY_KEY_BYTES
}

/// What a migration answers and the changes it writes.
pub type Plan = Result<(JsonV, Seq<(Seq<char>, Option<JsonV>)>), Seq<char>>;

/// Deleting the legacy key, when it holds a value.
pub open spec fn removal(s: Map<Seq<char>, JsonV>, legacy_key: Seq<char>) -> Seq<(Seq<char>, Option<JsonV>)> {
    if s.dom().contains(legacy_key) {
        seq![(legacy_key, None::<JsonV>)]
    } else {
        Seq::empty()
    }
}

/// Whether the settings already list a connection.
pub open spec fn has_connections(m: Seq<(Seq<char>, JsonV)>) -> bool {
    match lookup(m, "connections"@) {
        Some(JsonV::Array(cs)) => cs.len() > 0,
        _ => false,
    }
}

/// The single connection made from the legacy server URL.
pub open spec fn first_connection(id: Seq<char>, name: Seq<char>, url: Seq<char>) -> JsonV {
    JsonV::Object(
        seq![("id"@, JsonV::Text(id)), ("name"@, JsonV::Text(name)), ("url"@, JsonV::Text(url))],
    )
}

/// Settings without connections but with a legacy server URL get one
/// connection for that URL, made the active one; other settings are kept.
pub open spec fn connection_plan(m: Seq<(Seq<char>, JsonV)>, id: Seq<char>, name: Seq<char>) -> Plan {
    let url = match crate::json::as_text(lookup(m, "kimaiUrl"@)) {
        Some(u) => u,
        None => Seq::empty(),
    };
    if has_connections(m) || url.len() == 0 {
        Ok((JsonV::Object(m), Seq::empty()))
    } else {
        let n = object_with(
            object_with(m, "connections"@, JsonV::Array(seq![first_connection(id, name, url)])),
            "activeConnectionId"@,
            JsonV::Text(id),
        );
        Ok((JsonV::Object(n), seq![("settings"@, Some(JsonV::Object(n)))]))
    }
}

pub open spec fn settings_connection_plan(s: Map<Seq<char>, JsonV>, id: Seq<char>, name: Seq<char>) -> Plan {
    if !valid_id(id) || !valid_id(name) {
        Err("Invalid migrated connection identity"@)
    } else {
        match entry(s, "settings"@) {
            Some(JsonV::Object(m)) => connection_plan(m, id, name),
            None => connection_plan(Seq::empty(), id, name),
            Some(_) => Err("Settings value is not an object"@),
        }
    }
}

/// A category map already migrated is kept; otherwise the legacy one moves
/// to the new key; the legacy key is deleted either way.
pub open spec fn category_plan(s: Map<Seq<char>, JsonV>, target: Seq<char>, legacy_key: Seq<char>) -> Plan {
    match entry(s, target) {
        Some(v) => if v is Object {
            Ok((v, removal(s, legacy_key)))
        } else {
            Err("Migrated store value is not an object"@)
        },
        None => match entry(s, legacy_key) {
            Some(v) => if v is Object {
                Ok((v, seq![(target, Some(v))] + removal(s, legacy_key)))
            } else {
                Err("Legacy store value is not an object"@)
            },
            None => Ok((JsonV::Object(Seq::empty()), Seq::empty())),
        },
    }
}

pub open spec fn hidden_key() -> Seq<char> {
    "hiddenRecentTasksByConnection"@
}

pub open spec fn legacy_hidden_key() -> Seq<char> {
    "hiddenRecentTasks"@
}

/// The hidden tasks of connection `id`: taken from the legacy list unless the
/// connection already has its own; the legacy list is deleted either way.
pub open spec fn hidden_plan(s: Map<Seq<char>, JsonV>, id: Seq<char>) -> Plan {
    if !valid_id(id) {
        Err("Invalid hidden task connection id"@)
    } else {
        let current: Result<Seq<(Seq<char>, JsonV)>, Seq<char>> = match entry(s, hidden_key()) {
            Some(JsonV::Object(m)) => Ok(m),
            None => Ok(Seq::empty()),
            Some(_) => Err("Hidden task store value is not an object"@),
        };
        match current {
            Err(e) => Err(e),
            Ok(m) => {
                let legacy = entry(s, legacy_hidden_key());
                let inserted: Result<Option<Seq<(Seq<char>, JsonV)>>, Seq<char>> = if lookup(m, id) is None
                    && legacy is Some {
                    match string_items_of(legacy) {
                        Err(e) => Err(e),
                        Ok(items) => Ok(Some(object_with(m, id, text_array(items)))),
                    }
                } else {
                    Ok(None)
                };
                match inserted {
                    Err(e) => Err(e),
                    Ok(n) => {
                        let map = match n {
                            Some(x) => x,
                            None => m,
                        };
                        let value = match lookup(map, id) {
                            Some(v) => v,
                            None => JsonV::Array(Seq::empty()),
                        };
                        let writes = match n {
                            Some(x) => seq![(hidden_key(), Some(JsonV::Object(x)))],
                            None => Seq::empty(),
                        };
                        match string_items_of(Some(value)) {
                            Err(e) => Err(e),
                            Ok(_) => Ok((value, writes + removal(s, legacy_hidden_key()))),
                        }
                    },
                }
            },
        }
    }
}

/// The paused timers: kept when already migrated; otherwise the legacy timer,
/// given the identifier `id` unless it has one, becomes the only one; the
/// legacy key is deleted either way.
pub open spec fn paused_plan(s: Map<Seq<char>, JsonV>, id: Seq<char>) -> Plan {
    if !valid_id(id) {
        Err("Invalid paused timer id"@)
    } else {
        match entry(s, "pausedTimers"@) {
            Some(JsonV::Array(items)) => Ok((JsonV::Array(items), removal(s, "pausedTimer"@))),
            Some(_) => Err("Paused timer store value is not an array"@),
            None => match entry(s, "pausedTimer"@) {
                Some(JsonV::Object(t)) => {
                    let timer = if lookup(t, "id"@) is Some {
                        t
                    } else {
                        object_with(t, "id"@, JsonV::Text(id))
                    };
                    let v = JsonV::Array(seq![JsonV::Object(timer)]);
                    Ok((v, seq![("pausedTimers"@, Some(v))] + removal(s, "pausedTimer"@)))
                },
                Some(_) => Err("Legacy paused timer is not an object"@),
                None => Ok((JsonV::Array(Seq::empty()), Seq::empty())),
            },
        }
    }
}

/// What a migration answers and writes, given the store's contents.
pub open spec fn migration_plan(s: Map<Seq<char>, JsonV>, m: MigrationV) -> Plan {
    match m {
        MigrationV::SettingsConnection(id, name) => settings_connection_plan(s, id, name),
        MigrationV::CategoryConfig => category_plan(s, "categoryConfig"@, "csConfig"@),
        MigrationV::CategoryLastActivity => category_plan(s, "categoryLastActivity"@, "csLastActivity"@),
        MigrationV::HiddenTasks(id) => hidden_plan(s, id),
        MigrationV::PausedTimer(id) => paused_plan(s, id),
    }
}

fn valid_id_exec(id: &str) -> (r: bool)
    ensures
        r == valid_id(id@),
{
    id.unicode_len() > 0 && byte_len_within(id, MAX_ENTRY_KEY_BYTES)
}

fn removal_exec(store: &Store, legacy_key: &str) -> (r: Vec<(String, Option<Json>)>)
    ensures
        changes_view(r@) == removal(store@, legacy_key@),
{
    let mut r: Vec<(String, Option<Json>)> = Vec::new();
    if store.get_value(legacy_key).is_some() {
        r.push((String::from_str(legacy_key), None));
        assert(changes_view(r@) =~= seq![(legacy_key@, None::<JsonV>)]);
    } else {
        assert(changes_view(r@) =~= Seq::<(Seq<char>, Option<JsonV>)>::empty());
    }
    r
}

fn connection_plan_exec(m: Vec<(String, Json)>, id: &str, name: &str) -> (r: (Json, Vec<(String, Option<Json>)>))
    requires
        object_canonical(members_view(m@)),
    ensures
        connection_plan(members_view(m@), id@, name@) == Ok::<(JsonV, Seq<(Seq<char>, Option<JsonV>)>), Seq<char>>(
            (r.0@, changes_view(r.1@)),
        ),
        canonical(r.0@),
        changes_canonical(changes_view(r.1@)),
{
    let ghost mv = members_view(m@);
    let empty = String::new();
    let url: &String = match as_text_exec(object_get(&m, "kimaiUrl")) {
        Some(u) => u,
        None => &empty,
    };
    let has = match object_get(&m, "connections") {
        Some(Json::Array(cs)) => {
            proof {
                lemma_array_view(*cs);
            }
            cs.len() > 0
        },
        _ => false,
    };
    if has || url.as_str().unicode_len() == 0 {
        let mut no: Vec<(String, Option<Json>)> = Vec::new();
        assert(changes_view(no@) =~= Seq::<(Seq<char>, Option<JsonV>)>::empty());
        proof {
            crate::json::lemma_object_view(m);
        }
        return (Json::Object(m), no);
    }
    let ghost uv = url@;
    let mut conn: Vec<(String, Json)> = Vec::new();
    conn.push((String::from_str("id"), text_json(id)));
    conn.push((String::from_str("name"), text_json(name)));
    conn.push((String::from_str("url"), Json::Text(url.clone())));
    proof {
        crate::json::lemma_object_view(conn);
        assert(members_view(conn@) =~= seq![
            ("id"@, JsonV::Text(id@)),
            ("name"@, JsonV::Text(name@)),
            ("url"@, JsonV::Text(uv)),
        ]);
        reveal_strlit("id");
        reveal_strlit("name");
        reveal_strlit("url");
        assert(key_lt("id"@, "name"@));
        assert(key_lt("name"@, "url"@));
        assert(key_lt("id"@, "url"@));
        let cm = members_view(conn@);
        assert forall|i: int, j: int| 0 <= i < j < cm.len() implies key_lt(#[trigger] cm[i].0, #[trigger] cm[j].0) by {
            if i == 0 && j == 1 {
            } else if i == 0 && j == 2 {
            } else {
            }
        }
        assert forall|i: int| 0 <= i < cm.len() implies canonical(#[trigger] cm[i].1) by {
        }
    }
    let ghost first = Json::Object(conn)@;
    let mut list: Vec<Json> = Vec::new();
    list.push(Json::Object(conn));
    proof {
        lemma_array_view(list);
        assert(list@.map_values(|j: Json| j@) =~= seq![first_connection(id@, name@, uv)]);
        assert(canonical(first));
        let a = seq![first_connection(id@, name@, uv)];
        assert forall|i: int| 0 <= i < a.len() implies canonical(#[trigger] a[i]) by {
            assert(a[i] == first);
        }
        assert(canonical(JsonV::Array(a)));
    }
    let connections = Json::Array(list);
    let mut n = m;
    object_insert(&mut n, String::from_str("connections"), connections);
    proof {
        lemma_object_with_canonical(mv, "connections"@, JsonV::Array(seq![first_connection(id@, name@, uv)]));
    }
    let ghost n1 = members_view(n@);
    object_insert(&mut n, String::from_str("activeConnectionId"), text_json(id));
    proof {
        lemma_object_with_canonical(n1, "activeConnectionId"@, JsonV::Text(id@));
        crate::json::lemma_object_view(n);
    }
    let settings = Json::Object(n);
    let copy = json_clone(&settings);
    let mut writes: Vec<(String, Option<Json>)> = Vec::new();
    writes.push((String::from_str("settings"), Some(copy)));
    assert(changes_view(writes@) =~= seq![("settings"@, Some(settings@))]);
    (settings, writes)
}

fn no_changes() -> (r: Vec<(String, Option<Json>)>)
    ensures
        changes_view(r@) == Seq::<(Seq<char>, Option<JsonV>)>::empty(),
{
    let r: Vec<(String, Option<Json>)> = Vec::new();
    assert(changes_view(r@) =~= Seq::<(Seq<char>, Option<JsonV>)>::empty());
    r
}

fn empty_object() -> (r: Json)
    ensures
        r@ == JsonV::Object(Seq::empty()),
        canonical(r@),
{
    let m: Vec<(String, Json)> = Vec::new();
    proof {
        crate::json::lemma_object_view(m);
        assert(members_view(m@) =~= Seq::<(Seq<char>, JsonV)>::empty());
    }
    Json::Object(m)
}

fn empty_array() -> (r: Json)
    ensures
        r@ == JsonV::Array(Seq::empty()),
        canonical(r@),
{
    let a: Vec<Json> = Vec::new();
    proof {
        lemma_array_view(a);
        assert(a@.map_values(|j: Json| j@) =~= Seq::<JsonV>::empty());
    }
    Json::Array(a)
}

fn members_of(v: &Json) -> (r: Vec<(String, Json)>)
    requires
        v@ is Object,
        canonical(v@),
    ensures
        JsonV::Object(members_view(r@)) == v@,
        object_canonical(members_view(r@)),
{
    match v {
        Json::Object(m) => {
            proof {
                crate::json::lemma_object_view(*m);
            }
            clone_members(m)
        },
        _ => Vec::new(),
    }
}

fn clone_change(c: &(String, Option<Json>)) -> (r: (String, Option<Json>))
    ensures
        r.0@ == c.0@,
        opt_json_view(r.1) == opt_json_view(c.1),
{
    let v = match &c.1 {
        Some(j) => Some(json_clone(j)),
        None => None,
    };
    (String::from_str(c.0.as_str()), v)
}

fn prepend_change(key: &str, value: Json, rest: Vec<(String, Option<Json>)>) -> (r: Vec<(String, Option<Json>)>)
    ensures
        changes_view(r@) == seq![(key@, Some(value@))] + changes_view(rest@),
{
    let ghost vv = value@;
    let mut r: Vec<(String, Option<Json>)> = Vec::new();
    r.push((String::from_str(key), Some(value)));
    let mut i: usize = 0;
    while i < rest.len()
        invariant
            i <= rest@.len(),
            r@.len() == i + 1,
            changes_view(r@) == seq![(key@, Some(vv))] + changes_view(rest@).take(i as int),
        decreases rest@.len() - i,
    {
        let ghost before = r@;
        let c = clone_change(&rest[i]);
        r.push(c);
        assert(changes_view(r@)[i + 1] == changes_view(rest@)[i as int]);
        let ghost target = seq![(key@, Some(vv))] + changes_view(rest@).take(i + 1);
        assert forall|j: int| 0 <= j < i + 2 implies changes_view(r@)[j] == target[j] by {
            if j < i + 1 {
                assert(r@[j] == before[j]);
                assert(changes_view(before)[j] == (seq![(key@, Some(vv))] + changes_view(rest@).take(
                    i as int,
                ))[j]);
            }
        }
        assert(changes_view(r@) =~= target);
        i += 1;
    }
    assert(changes_view(rest@).take(rest@.len() as int) =~= changes_view(rest@));
    r
}

fn category_plan_exec(store: &Store, target: &str, legacy_key: &str) -> (r: Result<(Json, Vec<(String, Option<Json>)>), String>)
    ensures
        match r {
            Ok((v, cs)) => {
                &&& category_plan(store@, target@, legacy_key@) == Ok::<(JsonV, Seq<(Seq<char>, Option<JsonV>)>), Seq<char>>(
                    (v@, changes_view(cs@)),
                )
                &&& canonical(v@)
                &&& changes_canonical(changes_view(cs@))
            },
            Err(e) => category_plan(store@, target@, legacy_key@) == Err::<(JsonV, Seq<(Seq<char>, Option<JsonV>)>), Seq<char>>(e@),
        },
{
    let rem = removal_exec(store, legacy_key);
    match store.get_value(target) {
        Some(v) => {
            if !(match v {
                Json::Object(_) => true,
                _ => false,
            }) {
                return Err(String::from_str("Migrated store value is not an object"));
            }
            Ok((json_clone(v), rem))
        },
        None => match store.get_value(legacy_key) {
            Some(v) => {
                if !(match v {
                    Json::Object(_) => true,
                    _ => false,
                }) {
                    return Err(String::from_str("Legacy store value is not an object"));
                }
                let cs = prepend_change(target, json_clone(v), rem);
                Ok((json_clone(v), cs))
            },
            None => Ok((empty_object(), no_changes())),
        },
    }
}

fn hidden_plan_exec(store: &Store, id: &str) -> (r: Result<(Json, Vec<(String, Option<Json>)>), String>)
    ensures
        match r {
            Ok((v, cs)) => {
                &&& hidden_plan(store@, id@) == Ok::<(JsonV, Seq<(Seq<char>, Option<JsonV>)>), Seq<char>>(
                    (v@, changes_view(cs@)),
                )
                &&& canonical(v@)
                &&& changes_canonical(changes_view(cs@))
            },
            Err(e) => hidden_plan(store@, id@) == Err::<(JsonV, Seq<(Seq<char>, Option<JsonV>)>), Seq<char>>(e@),
        },
{
    if !valid_id_exec(id) {
        return Err(String::from_str("Invalid hidden task connection id"));
    }
    let mut map: Vec<(String, Json)> = match store.get_value("hiddenRecentTasksByConnection") {
        Some(v) => match v {
            Json::Object(_) => members_of(v),
            _ => return Err(String::from_str("Hidden task store value is not an object")),
        },
        None => {
            let e: Vec<(String, Json)> = Vec::new();
            assert(members_view(e@) =~= Seq::<(Seq<char>, JsonV)>::empty());
            e
        },
    };
    let ghost m = members_view(map@);
    let legacy = store.get_value("hiddenRecentTasks");
    let mut inserted = false;
    if object_get(&map, id).is_none() && legacy.is_some() {
        let items = match string_items(legacy) {
            Ok(items) => items,
            Err(e) => return Err(e),
        };
        let ghost tv = texts_view(items@);
        let value = texts_to_json(items);
        object_insert(&mut map, String::from_str(id), value);
        proof {
            lemma_object_with_canonical(m, id@, text_array(tv));
        }
        inserted = true;
    }
    let ghost map_v = members_view(map@);
    let empty = empty_array();
    let value = match object_get(&map, id) {
        Some(v) => json_clone(v),
        None => empty,
    };
    proof {
        if let Some(v) = lookup(map_v, id@) {
            let i = choose|i: int| crate::json::is_first_key(map_v, id@, i);
            crate::json::lemma_lookup_at(map_v, id@, i);
        }
    }
    let check = string_items(Some(&value));
    if let Err(e) = check {
        return Err(e);
    }
    let rem = removal_exec(store, "hiddenRecentTasks");
    let cs = if inserted {
        proof {
            crate::json::lemma_object_view(map);
        }
        prepend_change("hiddenRecentTasksByConnection", Json::Object(map), rem)
    } else {
        assert(Seq::<(Seq<char>, Option<JsonV>)>::empty() + changes_view(rem@) =~= changes_view(rem@));
        rem
    };
    Ok((value, cs))
}

fn paused_plan_exec(store: &Store, id: &str) -> (r: Result<(Json, Vec<(String, Option<Json>)>), String>)
    ensures
        match r {
            Ok((v, cs)) => {
                &&& paused_plan(store@, id@) == Ok::<(JsonV, Seq<(Seq<char>, Option<JsonV>)>), Seq<char>>(
                    (v@, changes_view(cs@)),
                )
                &&& canonical(v@)
                &&& changes_canonical(changes_view(cs@))
            },
            Err(e) => paused_plan(store@, id@) == Err::<(JsonV, Seq<(Seq<char>, Option<JsonV>)>), Seq<char>>(e@),
        },
{
    if !valid_id_exec(id) {
        return Err(String::from_str("Invalid paused timer id"));
    }
    let rem = removal_exec(store, "pausedTimer");
    match store.get_value("pausedTimers") {
        Some(v) => match v {
            Json::Array(_) => Ok((json_clone(v), rem)),
            _ => Err(String::from_str("Paused timer store value is not an array")),
        },
        None => match store.get_value("pausedTimer") {
            Some(v) => match v {
                Json::Object(_) => {
                    let mut timer = members_of(v);
                    let ghost t = members_view(timer@);
                    if object_get(&timer, "id").is_none() {
                        object_insert(&mut timer, String::from_str("id"), text_json(id));
                        proof {
                            lemma_object_with_canonical(t, "id"@, JsonV::Text(id@));
                        }
                    }
                    proof {
                        crate::json::lemma_object_view(timer);
                    }
                    let ghost tv = Json::Object(timer)@;
                    let mut list: Vec<Json> = Vec::new();
                    list.push(Json::Object(timer));
                    proof {
                        lemma_array_view(list);
                        assert(list@.map_values(|j: Json| j@) =~= seq![tv]);
                        let a = seq![tv];
                        assert forall|i: int| 0 <= i < a.len() implies canonical(#[trigger] a[i]) by {
                            assert(a[i] == tv);
                        }
                    }
                    let value = Json::Array(list);
                    let cs = prepend_change("pausedTimers", json_clone(&value), rem);
                    Ok((value, cs))
                },
                _ => Err(String::from_str("Legacy paused timer is not an object")),
            },
            None => Ok((empty_array(), rem)),
        },
    }
}

/// What a migration answers and writes (see `migration_plan`), without
/// writing anything.
pub fn plan_migration(store: &Store, migration: &LegacyStoreMigration) -> (r: Result<(Json, Vec<(String, Option<Json>)>), String>)
    ensures
        match r {
            Ok((v, cs)) => {
                &&& migration_plan(store@, migration@) == Ok::<(JsonV, Seq<(Seq<char>, Option<JsonV>)>), Seq<char>>(
                    (v@, changes_view(cs@)),
                )
                &&& canonical(v@)
                &&& changes_canonical(changes_view(cs@))
            },
            Err(e) => migration_plan(store@, migration@) == Err::<(JsonV, Seq<(Seq<char>, Option<JsonV>)>), Seq<char>>(e@),
        },
{
    match migration {
        LegacyStoreMigration::SettingsConnection { generated_id, name } => {
            if !valid_id_exec(generated_id.as_str()) || !valid_id_exec(name.as_str()) {
                return Err(String::from_str("Invalid migrated connection identity"));
            }
            let m: Vec<(String, Json)> = match store.get_value("settings") {
                Some(v) => match v {
                    Json::Object(_) => members_of(v),
                    _ => return Err(String::from_str("Settings value is not an object")),
                },
                None => {
                    let e: Vec<(String, Json)> = Vec::new();
                    assert(members_view(e@) =~= Seq::<(Seq<char>, JsonV)>::empty());
                    e
                },
            };
            Ok(connection_plan_exec(m, generated_id.as_str(), name.as_str()))
        },
        LegacyStoreMigration::CategoryConfig => category_plan_exec(store, "categoryConfig", "csConfig"),
        LegacyStoreMigration::CategoryLastActivity => category_plan_exec(
            store,
            "categoryLastActivity",
            "csLastActivity",
        ),
        LegacyStoreMigration::HiddenTasks { connection_id } => hidden_plan_exec(store, connection_id.as_str()),
        LegacyStoreMigration::PausedTimer { generated_id } => paused_plan_exec(store, generated_id.as_str()),
    }
}

/// Whether a save's outcome `u` and an answer `r` agree: both succeeded, or
/// both failed with the same error.
pub open spec fn same_outcome<T>(u: Result<(), String>, r: Result<T, String>) -> bool {
    match (u, r) {
        (Ok(_), Ok(_)) => true,
        (Err(a), Err(b)) => a == b,
        _ => false,
    }
}

/// Migrates one legacy value: writes the planned changes (see
/// `migration_plan`) all at once, saving them with `save`; when saving fails,
/// every changed key gets back its value.
pub fn migrate_legacy_store_backend<F: Fn(&Store) -> Result<(), String>>(
    store: &mut Store,
    migration: LegacyStoreMigration,
    save: &F,
) -> (r: Result<Json, String>)
    requires
        forall|s: &Store| save.requires((s,)),
    ensures
        match migration_plan(old(store)@, migration@) {
            Err(e) => r matches Err(x) && x@ == e && final(store)@ == old(store)@,
            Ok((v, cs)) => {
                &&& r matches Ok(x) ==> x@ == v && final(store)@ == changed(old(store)@, cs)
                &&& r is Err ==> final(store)@ == old(store)@ && cs.len() > 0
                &&& cs.len() > 0 ==> exists|s: Store, u: Result<(), String>|
                    s@ == changed(old(store)@, cs) && save.ensures((&s,), u) && same_outcome(u, r)
            },
        },
{
    let (value, changes) = match plan_migration(store, &migration) {
        Ok(p) => p,
        Err(e) => return Err(e),
    };
    if changes.len() == 0 {
        assert(changed(old(store)@, changes_view(changes@)) == old(store)@);
        return Ok(value);
    }
    let ghost before = store@;
    let ghost cs = changes_view(changes@);
    let saved = persist_changes_with_rollback(store, &changes, save);
    let ghost w = choose|s: Store| s@ == changed(before, cs) && save.ensures((&s,), saved);
    let ghost sg = saved;
    let r: Result<Json, String> = match saved {
        Ok(()) => Ok(value),
        Err(e) => Err(e),
    };
    assert(same_outcome(sg, r));
    assert(w@ == changed(before, cs) && save.ensures((&w,), sg));
    r
}

/// The store after a request that writes `stored` under `key`: written when
/// the request succeeded, as it was when it failed; `save` was handed the
/// written store, and its outcome is the request's.
pub open spec fn wrote_key<F: Fn(&Store) -> Result<(), String>, T>(
    save: &F,
    before: Map<Seq<char>, JsonV>,
    after: Map<Seq<char>, JsonV>,
    key: Seq<char>,
    stored: JsonV,
    r: Result<T, String>,
) -> bool {
    &&& r is Ok ==> after == before.insert(key, stored)
    &&& r is Err ==> after == before
    &&& exists|s: Store, u: Result<(), String>|
        s@ == before.insert(key, stored) && save.ensures((&s,), u) && same_outcome(u, r)
}

fn write_key<F: Fn(&Store) -> Result<(), String>, T>(
    store: &mut Store,
    key: &str,
    stored: Json,
    answer: T,
    save: &F,
) -> (r: Result<T, String>)
    requires
        canonical(stored@),
        forall|s: &Store| save.requires((s,)),
    ensures
        r matches Ok(x) ==> x == answer,
        wrote_key(save, old(store)@, final(store)@, key@, stored@, r),
{
    let ghost before = store@;
    let ghost sv = stored@;
    let saved = persist_value_with_rollback(store, key, Some(stored), save);
    let ghost w = choose|s: Store| s@ == change_one(before, (key@, Some(sv))) && save.ensures((&s,), saved);
    let ghost sg = saved;
    let r = match saved {
        Ok(()) => Ok(answer),
        Err(e) => Err(e),
    };
    assert(same_outcome(sg, r));
    assert(w@ == before.insert(key@, sv) && save.ensures((&w,), sg));
    r
}

/// The members of an object-valued store entry: none when absent, refused
/// with `message` when the entry is not an object.
pub open spec fn object_entry(s: Map<Seq<char>, JsonV>, key: Seq<char>, message: Seq<char>) -> Result<Seq<(Seq<char>, JsonV)>, Seq<char>> {
    match entry(s, key) {
        Some(JsonV::Object(m)) => Ok(m),
        None => Ok(Seq::empty()),
        Some(_) => Err(message),
    }
}

/// The items of an array-valued store entry: none when absent, refused with
/// `message` when the entry is not an array.
pub open spec fn array_entry(s: Map<Seq<char>, JsonV>, key: Seq<char>, message: Seq<char>) -> Result<Seq<JsonV>, Seq<char>> {
    match entry(s, key) {
        Some(JsonV::Array(items)) => Ok(items),
        None => Ok(Seq::empty()),
        Some(_) => Err(message),
    }
}

fn object_entry_exec(store: &Store, key: &str, message: &str) -> (r: Result<Vec<(String, Json)>, String>)
    ensures
        match r {
            Ok(m) => object_entry(store@, key@, message@) == Ok::<Seq<(Seq<char>, JsonV)>, Seq<char>>(
                members_view(m@),
            ) && object_canonical(members_view(m@)),
            Err(e) => object_entry(store@, key@, message@) == Err::<Seq<(Seq<char>, JsonV)>, Seq<char>>(
                e@,
            ),
        },
{
    match store.get_value(key) {
        Some(v) => match v {
            Json::Object(_) => Ok(members_of(v)),
            _ => Err(String::from_str(message)),
        },
        None => {
            let e: Vec<(String, Json)> = Vec::new();
            assert(members_view(e@) =~= Seq::<(Seq<char>, JsonV)>::empty());
            Ok(e)
        },
    }
}

fn array_entry_exec(store: &Store, key: &str, message: &str) -> (r: Result<Vec<Json>, String>)
    ensures
        match r {
            Ok(items) => array_entry(store@, key@, message@) == Ok::<Seq<JsonV>, Seq<char>>(
                values_view(items@),
            ) && all_canonical(values_view(items@)),
            Err(e) => array_entry(store@, key@, message@) == Err::<Seq<JsonV>, Seq<char>>(e@),
        },
{
    match store.get_value(key) {
        Some(v) => match v {
            Json::Array(items) => {
                proof {
                    lemma_array_view(*items);
                }
                let mut out: Vec<Json> = Vec::new();
                let mut i: usize = 0;
                while i < items.len()
                    invariant
                        i <= items@.len(),
                        v@ == JsonV::Array(items@.map_values(|j: Json| j@)),
                        canonical(v@),
                        out@.len() == i,
                        values_view(out@) == items@.map_values(|j: Json| j@).take(i as int),
                    decreases items@.len() - i,
                {
                    let ghost before = out@;
                    out.push(json_clone(&items[i]));
                    assert forall|k: int| 0 <= k < i + 1 implies values_view(out@)[k] == items@.map_values(
                        |j: Json| j@,
                    ).take(i + 1)[k] by {
                        if k < i {
                            assert(out@[k] == before[k]);
                            assert(values_view(before)[k] == items@.map_values(|j: Json| j@).take(i as int)[k]);
                        }
                    }
                    assert(values_view(out@) =~= items@.map_values(|j: Json| j@).take(i + 1));
                    i += 1;
                }
                assert(items@.map_values(|j: Json| j@).take(items@.len() as int) =~= items@.map_values(
                    |j: Json| j@,
                ));
                Ok(out)
            },
            _ => Err(String::from_str(message)),
        },
        None => {
            let e: Vec<Json> = Vec::new();
            assert(values_view(e@) =~= Seq::<JsonV>::empty());
            Ok(e)
        },
    }
}

fn array_json(items: Vec<Json>) -> (r: Json)
    requires
        all_canonical(values_view(items@)),
    ensures
        r@ == JsonV::Array(values_view(items@)),
        canonical(r@),
{
    proof {
        lemma_array_view(items);
        assert(items@.map_values(|j: Json| j@) =~= values_view(items@));
    }
    Json::Array(items)
}

/// What a scoped request answers and stores under its key, given the store's
/// contents: checked, applied to the entry, checked against the window.
pub open spec fn scoped_plan(
    s: Map<Seq<char>, JsonV>,
    window_label: Seq<char>,
    key: Seq<char>,
    entry_key: Seq<char>,
    m: ScopedMutationV,
    encoded_len: nat,
) -> Result<(JsonV, JsonV), Seq<char>> {
    match scoped_request_error(key, entry_key, encoded_len) {
        Some(e) => Err(e),
        None => match object_entry(s, key, "Scoped store value is not an object"@) {
            Err(e) => Err(e),
            Ok(members) => match mutated(lookup(members, entry_key), m) {
                Err(e) => Err(e),
                Ok(v) => match scoped_window_error(window_label, key, lookup(members, entry_key), v) {
                    Some(e) => Err(e),
                    None => Ok((v, JsonV::Object(object_with(members, entry_key, v)))),
                },
            },
        },
    }
}

/// Changes one entry of a per-connection store value on behalf of the window
/// `window_label` (see `scoped_plan`); `encoded_len` is the length of the
/// mutation's JSON encoding.
pub fn mutate_scoped_store<F: Fn(&Store) -> Result<(), String>>(
    store: &mut Store,
    window_label: &str,
    request: ScopedStoreRequest,
    encoded_len: usize,
    save: &F,
) -> (r: Result<ScopedStoreResponse, String>)
    requires
        mutation_canonical(request.mutation@),
        forall|s: &Store| save.requires((s,)),
    ensures
        match scoped_plan(
            old(store)@,
            window_label@,
            request.key@,
            request.entry_key@,
            request.mutation@,
            encoded_len as nat,
        ) {
            Err(e) => r matches Err(x) && x@ == e && final(store)@ == old(store)@,
            Ok((answer, stored)) => (r matches Ok(x) ==> x.value@ == answer) && wrote_key(
                save,
                old(store)@,
                final(store)@,
                request.key@,
                stored,
                r,
            ),
        },
{
    if let Err(e) = validate_request(&request, encoded_len) {
        return Err(e);
    }
    let ScopedStoreRequest { key, entry_key, mutation } = request;
    let mut map = match object_entry_exec(store, key.as_str(), "Scoped store value is not an object") {
        Ok(m) => m,
        Err(e) => return Err(e),
    };
    let previous = clone_opt(object_get(&map, entry_key.as_str()));
    let value = match apply_mutation(&mut map, entry_key.as_str(), mutation) {
        Ok(v) => v,
        Err(e) => return Err(e),
    };
    let prev_ref = match &previous {
        Some(p) => Some(p),
        None => None,
    };
    if let Err(e) = validate_scoped_store_window(window_label, key.as_str(), prev_ref, &value) {
        return Err(e);
    }
    proof {
        crate::json::lemma_object_view(map);
    }
    let answer = json_clone(&value);
    write_key(store, key.as_str(), Json::Object(map), ScopedStoreResponse { value: answer }, save)
}

/// What an array request answers and stores, given the store's contents.
pub open spec fn array_plan(
    s: Map<Seq<char>, JsonV>,
    key: Seq<char>,
    m: ArrayMutationV,
    encoded_len: nat,
) -> Result<JsonV, Seq<char>> {
    if !(key == "favoriteTasks"@ || key == "pausedTimers"@) {
        Err("Array store key is not allowed"@)
    } else if encoded_len > MAX_VALUE_BYTES {
        Err("Array store mutation is too large"@)
    } else {
        match array_entry(s, key, "Array store value is not an array"@) {
            Err(e) => Err(e),
            Ok(items) => {
                let (outcome, after) = array_mutated(items, m);
                match outcome {
                    Err(e) => Err(e),
                    Ok(()) => Ok(JsonV::Array(after)),
                }
            },
        }
    }
}

/// Changes an array-valued store key (see `array_plan`); `encoded_len` is
/// the length of the mutation's JSON encoding.
pub fn mutate_array_store<F: Fn(&Store) -> Result<(), String>>(
    store: &mut Store,
    request: ArrayStoreRequest,
    encoded_len: usize,
    save: &F,
) -> (r: Result<ScopedStoreResponse, String>)
    requires
        array_mutation_canonical(request.mutation@),
        forall|s: &Store| save.requires((s,)),
    ensures
        match array_plan(old(store)@, request.key@, request.mutation@, encoded_len as nat) {
            Err(e) => r matches Err(x) && x@ == e && final(store)@ == old(store)@,
            Ok(stored) => (r matches Ok(x) ==> x.value@ == stored) && wrote_key(
                save,
                old(store)@,
                final(store)@,
                request.key@,
                stored,
                r,
            ),
        },
{
    let key = request.key.as_str();
    if !(str_eq(key, "favoriteTasks") || str_eq(key, "pausedTimers")) {
        return Err(String::from_str("Array store key is not allowed"));
    }
    if encoded_len > MAX_VALUE_BYTES {
        return Err(String::from_str("Array store mutation is too large"));
    }
    let mut items = match array_entry_exec(store, key, "Array store value is not an array") {
        Ok(items) => items,
        Err(e) => return Err(e),
    };
    if let Err(e) = apply_array_mutation(&mut items, request.mutation) {
        return Err(e);
    }
    let value = array_json(items);
    let answer = json_clone(&value);
    write_key(store, key, value, ScopedStoreResponse { value: answer }, save)
}

/// What a settings patch answers and stores as the settings, given the
/// store's contents.
pub open spec fn patch_plan(
    s: Map<Seq<char>, JsonV>,
    window_label: Seq<char>,
    values: Seq<(Seq<char>, JsonV)>,
    expected: Option<Seq<(Seq<char>, JsonV)>>,
    values_bytes: nat,
    expected_bytes: Option<nat>,
    settings_keys: Seq<Seq<char>>,
) -> Result<JsonV, Seq<char>> {
    match settings_request_error(values, expected, values_bytes, expected_bytes, settings_keys) {
        Some(e) => Err(e),
        None => match object_entry(s, "settings"@, "Settings value is not an object"@) {
            Err(e) => Err(e),
            Ok(settings) => match settings_window_error(window_label, settings, values) {
                Some(e) => Err(e),
                None => if expected matches Some(x) && !expectations_hold(settings, x) {
                    Err("Settings changed before the patch could be applied"@)
                } else {
                    Ok(JsonV::Object(patched_members(settings, values)))
                },
            },
        },
    }
}

/// Applies a settings patch on behalf of the window `window_label` (see
/// `patch_plan`); `values_bytes` and `expected_bytes` are the lengths of the
/// JSON encodings of the patch's two maps, `settings_keys` the known keys.
pub fn patch_settings<F: Fn(&Store) -> Result<(), String>>(
    store: &mut Store,
    window_label: &str,
    request: SettingsPatchRequest,
    values_bytes: usize,
    expected_bytes: Option<usize>,
    settings_keys: &Vec<String>,
    save: &F,
) -> (r: Result<ScopedStoreResponse, String>)
    requires
        request.expected is Some <==> expected_bytes is Some,
        all_members_canonical(members_view(request.values@)),
        forall|s: &Store| save.requires((s,)),
    ensures
        match patch_plan(
            old(store)@,
            window_label@,
            members_view(request.values@),
            match request.expected {
                Some(e) => Some(members_view(e@)),
                None => None,
            },
            values_bytes as nat,
            match expected_bytes {
                Some(n) => Some(n as nat),
                None => None,
            },
            texts_view(settings_keys@),
        ) {
            Err(e) => r matches Err(x) && x@ == e && final(store)@ == old(store)@,
            Ok(stored) => (r matches Ok(x) ==> x.value@ == stored) && wrote_key(
                save,
                old(store)@,
                final(store)@,
                "settings"@,
                stored,
                r,
            ),
        },
{
    if let Err(e) = validate_settings_patch_request(&request, values_bytes, expected_bytes, settings_keys) {
        return Err(e);
    }
    let mut settings = match object_entry_exec(store, "settings", "Settings value is not an object") {
        Ok(m) => m,
        Err(e) => return Err(e),
    };
    if let Err(e) = validate_settings_patch_window(window_label, &settings, &request.values) {
        return Err(e);
    }
    let SettingsPatchRequest { values, expected } = request;
    let exp_ref = match &expected {
        Some(e) => Some(e),
        None => None,
    };
    if let Err(e) = apply_settings_patch(&mut settings, values, exp_ref) {
        return Err(e);
    }
    proof {
        crate::json::lemma_object_view(settings);
    }
    let value = Json::Object(settings);
    let answer = json_clone(&value);
    write_key(store, "settings", value, ScopedStoreResponse { value: answer }, save)
}

/// What claiming legacy favorites answers and stores as the favorites.
pub open spec fn claim_plan(s: Map<Seq<char>, JsonV>, id: Seq<char>, base: Option<Seq<char>>) -> Result<JsonV, Seq<char>> {
    match base {
        None => Err("Favorite legacy base URL is required"@),
        Some(b) => if !valid_id(id) {
            Err("Invalid favorite connection id"@)
        } else {
            match array_entry(s, "favoriteTasks"@, "Favorite store value is not an array"@) {
                Err(e) => Err(e),
                Ok(items) => Ok(JsonV::Array(items.map_values(|v: JsonV| claimed(v, id, b)))),
            }
        },
    }
}

/// Tags the legacy favorites with their connection (see `claim_plan`).
pub fn claim_legacy_favorites_store<F: Fn(&Store) -> Result<(), String>>(
    store: &mut Store,
    request: FavoriteScopeRequest,
    save: &F,
) -> (r: Result<ScopedStoreResponse, String>)
    requires
        forall|s: &Store| save.requires((s,)),
    ensures
        match claim_plan(old(store)@, request.connection_id@, opt_string(request.base_url)) {
            Err(e) => r matches Err(x) && x@ == e && final(store)@ == old(store)@,
            Ok(stored) => (r matches Ok(x) ==> x.value@ == stored) && wrote_key(
                save,
                old(store)@,
                final(store)@,
                "favoriteTasks"@,
                stored,
                r,
            ),
        },
{
    let base_url = match &request.base_url {
        Some(b) => b.as_str(),
        None => return Err(String::from_str("Favorite legacy base URL is required")),
    };
    if !valid_id_exec(request.connection_id.as_str()) {
        return Err(String::from_str("Invalid favorite connection id"));
    }
    let mut items = match array_entry_exec(store, "favoriteTasks", "Favorite store value is not an array") {
        Ok(items) => items,
        Err(e) => return Err(e),
    };
    claim_legacy_favorites(&mut items, request.connection_id.as_str(), base_url);
    let value = array_json(items);
    let answer = json_clone(&value);
    write_key(store, "favoriteTasks", value, ScopedStoreResponse { value: answer }, save)
}

/// What moving favorites answers (how many belonged to the source) and stores
/// as the favorites.
pub open spec fn move_plan(s: Map<Seq<char>, JsonV>, from: (Seq<char>, Option<Seq<char>>), to: (Seq<char>, Option<Seq<char>>)) -> Result<(nat, JsonV), Seq<char>> {
    if from.0.len() == 0 || to.0.len() == 0 || from.0 == to.0 {
        Err("Invalid favorite connection move"@)
    } else {
        match array_entry(s, "favoriteTasks"@, "Favorite store value is not an array"@) {
            Err(e) => Err(e),
            Ok(items) => Ok((belonging_count(items, from.0, from.1), JsonV::Array(moved(items, items, from, to)))),
        }
    }
}

/// Moves the favorites of one connection to another (see `move_plan`).
pub fn move_favorites_store<F: Fn(&Store) -> Result<(), String>>(
    store: &mut Store,
    request: MoveFavoritesRequest,
    save: &F,
) -> (r: Result<MoveFavoritesResponse, String>)
    requires
        forall|s: &Store| save.requires((s,)),
    ensures
        match move_plan(old(store)@, move_source(&request), move_target(&request)) {
            Err(e) => r matches Err(x) && x@ == e && final(store)@ == old(store)@,
            Ok((count, stored)) => (r matches Ok(x) ==> x.count == count) && wrote_key(
                save,
                old(store)@,
                final(store)@,
                "favoriteTasks"@,
                stored,
                r,
            ),
        },
{
    if request.from_connection_id.as_str().unicode_len() == 0
        || request.to_connection_id.as_str().unicode_len() == 0 || str_eq(
        request.from_connection_id.as_str(),
        request.to_connection_id.as_str(),
    ) {
        return Err(String::from_str("Invalid favorite connection move"));
    }
    let mut items = match array_entry_exec(store, "favoriteTasks", "Favorite store value is not an array") {
        Ok(items) => items,
        Err(e) => return Err(e),
    };
    let count = move_favorites(&mut items, &request);
    let value = array_json(items);
    write_key(store, "favoriteTasks", value, MoveFavoritesResponse { count }, save)
}

/// Migrates one legacy value (see `migrate_legacy_store_backend`).
pub fn migrate_legacy_store<F: Fn(&Store) -> Result<(), String>>(
    store: &mut Store,
    request: LegacyStoreMigrationRequest,
    save: &F,
) -> (r: Result<ScopedStoreResponse, String>)
    requires
        forall|s: &Store| save.requires((s,)),
    ensures
        match migration_plan(old(store)@, request.migration@) {
            Err(e) => r matches Err(x) && x@ == e && final(store)@ == old(store)@,
            Ok((v, cs)) => {
                &&& r matches Ok(x) ==> x.value@ == v && final(store)@ == changed(old(store)@, cs)
                &&& r is Err ==> final(store)@ == old(store)@ && cs.len() > 0
                &&& cs.len() > 0 ==> exists|s: Store, u: Result<(), String>|
                    s@ == changed(old(store)@, cs) && save.ensures((&s,), u) && same_outcome(u, r)
            },
        },
{
    let ghost before = store@;
    let ghost plan = migration_plan(before, request.migration@);
    let r = migrate_legacy_store_backend(store, request.migration, save);
    let ghost rg = r;
    let out = match r {
        Ok(value) => Ok(ScopedStoreResponse { value }),
        Err(e) => Err(e),
    };
    proof {
        if let Ok((v, cs)) = plan {
            if cs.len() > 0 {
                let (w, u) = choose|s: Store, u: Result<(), String>|
                    s@ == changed(before, cs) && save.ensures((&s,), u) && same_outcome(u, rg);
                assert(same_outcome(u, out));
            }
        }
    }
    out
}

/// Adding a string that an entry's list already received changes nothing: a
/// second identical `AddString` answers the same list.
pub proof fn lemma_add_string_is_idempotent(entry: Option<JsonV>, v: Seq<char>)
    requires
        mutated(entry, ScopedMutationV::AddString(v)) is Ok,
    ensures
        mutated(
            Some(mutated(entry, ScopedMutationV::AddString(v))->Ok_0),
            ScopedMutationV::AddString(v),
        ) == mutated(entry, ScopedMutationV::AddString(v)),
{
    let items = string_items_of(entry)->Ok_0;
    let items2 = if items.contains(v) {
        items
    } else {
        items.push(v)
    };
    let r = text_array(items2);
    let arr = items2.map_values(|t: Seq<char>| JsonV::Text(t));
    assert forall|i: int| 0 <= i < items.len() implies byte_len(#[trigger] items[i]) <= MAX_STRING_BYTES by {
        if let Some(JsonV::Array(a)) = entry {
            assert(string_item(a[i]) is Some);
        }
    }
    assert forall|i: int| 0 <= i < arr.len() implies string_item(#[trigger] arr[i]) is Some by {
        if i < items.len() {
            assert(items2[i] == items[i]);
        }
    }
    assert(arr.map_values(|j: JsonV| string_item(j)->Some_0) =~= items2);
    assert(string_items_of(Some(r)) == Ok::<Seq<Seq<char>>, Seq<char>>(items2));
    if !items.contains(v) {
        assert(items2[items.len() as int] == v);
    }
    assert(items2.contains(v));
}

/// A scoped mutation sets its own entry and keeps every other entry (another
/// connection's) as it was.
pub proof fn lemma_scoped_mutation_keeps_other_entries(
    s: Map<Seq<char>, JsonV>,
    window_label: Seq<char>,
    key: Seq<char>,
    entry_key: Seq<char>,
    m: ScopedMutationV,
    encoded_len: nat,
    other: Seq<char>,
)
    requires
        scoped_plan(s, window_label, key, entry_key, m, encoded_len) is Ok,
    ensures
        ({
            let (answer, stored) = scoped_plan(s, window_label, key, entry_key, m, encoded_len)->Ok_0;
            let before = object_entry(s, key, "Scoped store value is not an object"@)->Ok_0;
            &&& stored matches JsonV::Object(after)
            &&& lookup(stored->Object_0, entry_key) == Some(answer)
            &&& other != entry_key ==> lookup(stored->Object_0, other) == lookup(before, other)
        }),
{
    let before = object_entry(s, key, "Scoped store value is not an object"@)->Ok_0;
    let v = mutated(lookup(before, entry_key), m)->Ok_0;
    crate::json::lemma_object_with_lookup(before, entry_key, v, entry_key);
    crate::json::lemma_object_with_lookup(before, entry_key, v, other);
}

/// A settings patch leaves every setting it does not name as it was.
pub proof fn lemma_patch_keeps_other_settings(
    m: Seq<(Seq<char>, JsonV)>,
    values: Seq<(Seq<char>, JsonV)>,
    k: Seq<char>,
)
    requires
        forall|i: int| 0 <= i < values.len() ==> (#[trigger] values[i]).0 != k,
    ensures
        lookup(patched_members(m, values), k) == lookup(m, k),
    decreases values.len(),
{
    if values.len() > 0 {
        let init = values.drop_last();
        assert forall|i: int| 0 <= i < init.len() implies (#[trigger] init[i]).0 != k by {
            assert(init[i] == values[i]);
        }
        lemma_patch_keeps_other_settings(m, init, k);
        assert(values[values.len() - 1].0 != k);
        crate::json::lemma_object_with_lookup(patched_members(m, init), values.last().0, values.last().1, k);
    }
}

/// A settings patch whose keys are distinct sets each of them to its value.
pub proof fn lemma_patch_sets_its_values(m: Seq<(Seq<char>, JsonV)>, values: Seq<(Seq<char>, JsonV)>)
    requires
        forall|i: int, j: int| 0 <= i < j < values.len() ==> (#[trigger] values[i]).0 != (#[trigger] values[j]).0,
    ensures
        forall|i: int|
            0 <= i < values.len() ==> lookup(patched_members(m, values), (#[trigger] values[i]).0) == Some(
                values[i].1,
            ),
    decreases values.len(),
{
    if values.len() > 0 {
        let init = values.drop_last();
        let last = values.last();
        assert forall|i: int, j: int| 0 <= i < j < init.len() implies (#[trigger] init[i]).0 != (#[trigger] init[j]).0 by {
            assert(init[i] == values[i] && init[j] == values[j]);
        }
        lemma_patch_sets_its_values(m, init);
        assert forall|i: int| 0 <= i < values.len() implies lookup(patched_members(m, values), (#[trigger] values[i]).0)
            == Some(values[i].1) by {
            crate::json::lemma_object_with_lookup(patched_members(m, init), last.0, last.1, values[i].0);
            if i < values.len() - 1 {
                assert(init[i] == values[i]);
                assert(values[i].0 != values[values.len() - 1].0);
            }
        }
    }
}

/// Creating the first connection from the legacy server URL happens once:
/// after it, the same migration from any other window, with another
/// identifier and name, writes nothing and answers the same settings.
pub proof fn lemma_connection_claim_is_idempotent(
    s: Map<Seq<char>, JsonV>,
    id: Seq<char>,
    name: Seq<char>,
    id2: Seq<char>,
    name2: Seq<char>,
)
    requires
        settings_connection_plan(s, id, name) is Ok,
        valid_id(id2),
        valid_id(name2),
    ensures
        ({
            let (v, cs) = settings_connection_plan(s, id, name)->Ok_0;
            settings_connection_plan(changed(s, cs), id2, name2) == Ok::<
                (JsonV, Seq<(Seq<char>, Option<JsonV>)>),
                Seq<char>,
            >((v, Seq::empty()))
        }),
{
    let (v, cs) = settings_connection_plan(s, id, name)->Ok_0;
    let m = match entry(s, "settings"@) {
        Some(JsonV::Object(m)) => m,
        _ => Seq::empty(),
    };
    let url = match crate::json::as_text(lookup(m, "kimaiUrl"@)) {
        Some(u) => u,
        None => Seq::<char>::empty(),
    };
    if has_connections(m) || url.len() == 0 {
        assert(cs.len() == 0);
        assert(changed(s, cs) == s);
    } else {
        let a = JsonV::Array(seq![first_connection(id, name, url)]);
        let n1 = object_with(m, "connections"@, a);
        let n = object_with(n1, "activeConnectionId"@, JsonV::Text(id));
        reveal_strlit("connections");
        reveal_strlit("activeConnectionId");
        assert("connections"@ != "activeConnectionId"@) by {
            assert("connections"@.len() != "activeConnectionId"@.len());
        }
        crate::json::lemma_object_with_lookup(m, "connections"@, a, "connections"@);
        crate::json::lemma_object_with_lookup(n1, "activeConnectionId"@, JsonV::Text(id), "connections"@);
        assert(has_connections(n));
        assert(changed(s, cs) == s.insert("settings"@, JsonV::Object(n))) by {
            reveal_with_fuel(changed, 2);
            assert(cs.drop_last() =~= Seq::<(Seq<char>, Option<JsonV>)>::empty());
        }
        assert(entry(changed(s, cs), "settings"@) == Some(JsonV::Object(n)));
    }
}

/// Settings with no connection yet and a legacy server URL `u` get exactly one
/// connection, under the generated identifier and the given name, whose URL is
/// `u`; it becomes the active connection, every other setting is kept, and the
/// settings are written in one change.
pub proof fn lemma_first_connection_points_at_legacy_url(
    s: Map<Seq<char>, JsonV>,
    m: Seq<(Seq<char>, JsonV)>,
    id: Seq<char>,
    name: Seq<char>,
    u: Seq<char>,
)
    requires
        valid_id(id),
        valid_id(name),
        entry(s, "settings"@) == Some(JsonV::Object(m)),
        lookup(m, "connections"@) is None || lookup(m, "connections"@) == Some(
            JsonV::Array(Seq::empty()),
        ),
        lookup(m, "kimaiUrl"@) == Some(JsonV::Text(u)),
        u.len() > 0,
    ensures
        ({
            let p = migration_plan(s, MigrationV::SettingsConnection(id, name));
            &&& p is Ok
            &&& p->Ok_0.0 is Object
            &&& ({
                let n = p->Ok_0.0->Object_0;
                &&& lookup(n, "connections"@) == Some(
                    JsonV::Array(
                        seq![
                            JsonV::Object(
                                seq![
                                    ("id"@, JsonV::Text(id)),
                                    ("name"@, JsonV::Text(name)),
                                    ("url"@, JsonV::Text(u)),
                                ],
                            ),
                        ],
                    ),
                )
                &&& lookup(n, "activeConnectionId"@) == Some(JsonV::Text(id))
                &&& forall|k: Seq<char>|
                    k != "connections"@ && k != "activeConnectionId"@ ==> #[trigger] lookup(n, k)
                        == lookup(m, k)
                &&& changed(s, p->Ok_0.1) == s.insert("settings"@, JsonV::Object(n))
            })
        }),
{
    reveal_strlit("connections");
    reveal_strlit("activeConnectionId");
    assert("connections"@ != "activeConnectionId"@) by {
        assert("connections"@.len() != "activeConnectionId"@.len());
    }
    assert(!has_connections(m));
    assert(crate::json::as_text(lookup(m, "kimaiUrl"@)) == Some(u));
    let a = JsonV::Array(seq![first_connection(id, name, u)]);
    let n1 = object_with(m, "connections"@, a);
    let n = object_with(n1, "activeConnectionId"@, JsonV::Text(id));
    let cs = seq![("settings"@, Some(JsonV::Object(n)))];
    assert(migration_plan(s, MigrationV::SettingsConnection(id, name)) == Ok::<
        (JsonV, Seq<(Seq<char>, Option<JsonV>)>),
        Seq<char>,
    >((JsonV::Object(n), cs)));
    crate::json::lemma_object_with_lookup(m, "connections"@, a, "connections"@);
    crate::json::lemma_object_with_lookup(n1, "activeConnectionId"@, JsonV::Text(id), "connections"@);
    crate::json::lemma_object_with_lookup(
        n1,
        "activeConnectionId"@,
        JsonV::Text(id),
        "activeConnectionId"@,
    );
    assert forall|k: Seq<char>| k != "connections"@ && k != "activeConnectionId"@ implies #[trigger] lookup(
        n,
        k,
    ) == lookup(m, k) by {
        crate::json::lemma_object_with_lookup(m, "connections"@, a, k);
        crate::json::lemma_object_with_lookup(n1, "activeConnectionId"@, JsonV::Text(id), k);
    }
    assert(changed(s, cs) == s.insert("settings"@, JsonV::Object(n))) by {
        reveal_with_fuel(changed, 2);
        assert(cs.drop_last() =~= Seq::<(Seq<char>, Option<JsonV>)>::empty());
    }
}

/// Migrating a category map that exists only under its legacy key moves it:
/// afterwards the new key holds the legacy value and the legacy key is gone,
/// in one write.
pub proof fn lemma_category_migration_moves_value(s: Map<Seq<char>, JsonV>, target: Seq<char>, legacy_key: Seq<char>)
    requires
        target != legacy_key,
        entry(s, target) is None,
        entry(s, legacy_key) matches Some(v) && v is Object,
    ensures
        category_plan(s, target, legacy_key) is Ok,
        ({
            let (answer, cs) = category_plan(s, target, legacy_key)->Ok_0;
            &&& Some(answer) == entry(s, legacy_key)
            &&& changed(s, cs) == s.insert(target, answer).remove(legacy_key)
        }),
{
    let v = entry(s, legacy_key)->Some_0;
    let cs = category_plan(s, target, legacy_key)->Ok_0.1;
    assert(cs =~= seq![(target, Some(v)), (legacy_key, None::<JsonV>)]);
    assert(changed(s, cs) == s.insert(target, v).remove(legacy_key)) by {
        reveal_with_fuel(changed, 3);
        assert(cs.drop_last() =~= seq![(target, Some(v))]);
        assert(cs.drop_last().drop_last() =~= Seq::<(Seq<char>, Option<JsonV>)>::empty());
    }
}

/// Hidden tasks that a connection already has are kept: the legacy list is
/// only deleted.
pub proof fn lemma_hidden_migration_keeps_existing_scope(s: Map<Seq<char>, JsonV>, id: Seq<char>)
    requires
        valid_id(id),
        entry(s, hidden_key()) matches Some(JsonV::Object(m)) && lookup(m, id) matches Some(val)
            && string_items_of(Some(val)) is Ok,
    ensures
        hidden_plan(s, id) == Ok::<(JsonV, Seq<(Seq<char>, Option<JsonV>)>), Seq<char>>(
            (
                lookup(entry(s, hidden_key())->Some_0->Object_0, id)->Some_0,
                removal(s, legacy_hidden_key()),
            ),
        ),
{
    assert(Seq::<(Seq<char>, Option<JsonV>)>::empty() + removal(s, legacy_hidden_key()) =~= removal(
        s,
        legacy_hidden_key(),
    ));
}

/// Whether the items are in ascending order of their key `f`.
pub open spec fn ordered_by_key(s: Seq<JsonV>, f: Seq<char>) -> bool {
    forall|i: int, j: int|
        0 <= i < j < s.len() ==> !key_lt(sort_key(#[trigger] s[j], f), sort_key(#[trigger] s[i], f))
}

proof fn lemma_key_le_transitive(a: Seq<char>, b: Seq<char>, c: Seq<char>)
    requires
        !key_lt(b, a),
        !key_lt(c, b),
    ensures
        !key_lt(c, a),
{
    if key_lt(c, a) {
        crate::json::lemma_key_lt_total(a, b);
        if key_lt(a, b) {
            crate::json::lemma_key_lt_transitive(c, a, b);
        }
    }
}

proof fn lemma_insert_keeps_order(s: Seq<JsonV>, x: JsonV, f: Seq<char>)
    requires
        ordered_by_key(s, f),
    ensures
        ordered_by_key(insert_by_key(s, x, f), f),
    decreases s.len(),
{
    let r = insert_by_key(s, x, f);
    if s.len() == 0 {
    } else if key_lt(sort_key(x, f), sort_key(s.last(), f)) {
        let t = s.drop_last();
        assert(ordered_by_key(t, f)) by {
            assert forall|i: int, j: int| 0 <= i < j < t.len() implies !key_lt(
                sort_key(#[trigger] t[j], f),
                sort_key(#[trigger] t[i], f),
            ) by {
                assert(t[i] == s[i] && t[j] == s[j]);
            }
        }
        lemma_insert_keeps_order(t, x, f);
        lemma_insert_members(t, x, f);
        let q = insert_by_key(t, x, f);
        let last = s.last();
        assert forall|i: int, j: int| 0 <= i < j < r.len() implies !key_lt(
            sort_key(#[trigger] r[j], f),
            sort_key(#[trigger] r[i], f),
        ) by {
            if j < q.len() {
                assert(r[i] == q[i] && r[j] == q[j]);
            } else {
                assert(r[j] == last);
                assert(r[i] == q[i]);
                if q[i] == x {
                    crate::json::lemma_key_lt_asymmetric(sort_key(x, f), sort_key(last, f));
                } else {
                    let l = choose|l: int| 0 <= l < t.len() && t[l] == q[i];
                    assert(s[l] == q[i]);
                    assert(s[s.len() - 1] == last);
                }
            }
        }
    } else {
        let last = s.last();
        assert forall|i: int, j: int| 0 <= i < j < r.len() implies !key_lt(
            sort_key(#[trigger] r[j], f),
            sort_key(#[trigger] r[i], f),
        ) by {
            if j < s.len() {
                assert(r[i] == s[i] && r[j] == s[j]);
            } else {
                assert(r[j] == x);
                assert(r[i] == s[i]);
                if i < s.len() - 1 {
                    assert(!key_lt(sort_key(s[s.len() - 1], f), sort_key(s[i], f)));
                    lemma_key_le_transitive(sort_key(s[i], f), sort_key(last, f), sort_key(x, f));
                }
            }
        }
    }
}

/// The sorted items are in ascending order of their key.
pub proof fn lemma_sorted_is_ordered(s: Seq<JsonV>, f: Seq<char>)
    ensures
        ordered_by_key(sorted_by_key(s, f), f),
    decreases s.len(),
{
    if s.len() > 0 {
        lemma_sorted_is_ordered(s.drop_last(), f);
        lemma_insert_keeps_order(sorted_by_key(s.drop_last(), f), s.last(), f);
    }
}

/// An append that stays within its limit keeps every item that was there, in
/// order, and adds the value only when no item has its identity.
pub proof fn lemma_append_keeps_existing_items(
    items: Seq<JsonV>,
    value: JsonV,
    identity: Seq<(Seq<char>, JsonV)>,
    limit: Option<usize>,
    sort_field: Option<Seq<char>>,
)
    requires
        value is Object,
        identity.len() > 0,
        match limit {
            Some(l) => 0 < l <= MAX_STRING_ITEMS && items.len() < l,
            None => true,
        },
    ensures
        ({
            let (outcome, after) = array_mutated(
                items,
                ArrayMutationV::AppendUnique { value, identity, limit, sort_field },
            );
            &&& outcome is Ok
            &&& after.take(items.len() as int) == items
            &&& after == if any_matches(items, identity) {
                items
            } else {
                items.push(value)
            }
        }),
{
    assert(items.push(value).take(items.len() as int) =~= items);
    assert(items.take(items.len() as int) =~= items);
}

/// An append adds its value when every item differs from the identity in at
/// least one member (or is no object at all): sharing some identity members
/// is not a match.
pub proof fn lemma_append_adds_value_unless_identity_held(
    items: Seq<JsonV>,
    value: JsonV,
    identity: Seq<(Seq<char>, JsonV)>,
    sort_field: Option<Seq<char>>,
)
    requires
        value is Object,
        identity.len() > 0,
        forall|j: int|
            0 <= j < items.len() ==> (#[trigger] items[j] matches JsonV::Object(m) ==> exists|i: int|
                0 <= i < identity.len() && lookup(m, identity[i].0) != Some(identity[i].1)),
    ensures
        array_mutated(
            items,
            ArrayMutationV::AppendUnique { value, identity, limit: None, sort_field },
        ) == (Ok::<(), Seq<char>>(()), items.push(value)),
{
    if any_matches(items, identity) {
        let j = choose|j: int| 0 <= j < items.len() && matches_identity_of(#[trigger] items[j], identity);
        let m = items[j]->Object_0;
        let i = choose|i: int| 0 <= i < identity.len() && lookup(m, identity[i].0) != Some(identity[i].1);
        assert(lookup(m, identity[i].0) == Some(identity[i].1));
    }
}

/// An append leaves the items as they are when one of them is an object
/// holding every member of the identity.
pub proof fn lemma_append_skips_held_identity(
    items: Seq<JsonV>,
    value: JsonV,
    identity: Seq<(Seq<char>, JsonV)>,
    sort_field: Option<Seq<char>>,
    j: int,
)
    requires
        value is Object,
        identity.len() > 0,
        0 <= j < items.len(),
        items[j] matches JsonV::Object(m) && forall|i: int|
            0 <= i < identity.len() ==> lookup(m, (#[trigger] identity[i]).0) == Some(identity[i].1),
    ensures
        array_mutated(
            items,
            ArrayMutationV::AppendUnique { value, identity, limit: None, sort_field },
        ) == (Ok::<(), Seq<char>>(()), items),
{
    assert(matches_identity_of(items[j], identity));
}

/// Removing by identity keeps, in order, exactly the items that are not
/// objects holding every member of the identity.
pub proof fn lemma_remove_keeps_items_without_identity(items: Seq<JsonV>, identity: Seq<(Seq<char>, JsonV)>)
    requires
        identity.len() > 0,
    ensures
        array_mutated(items, ArrayMutationV::RemoveMatching { identity }) == (
            Ok::<(), Seq<char>>(()),
            items.filter(
                |v: JsonV|
                    !(v matches JsonV::Object(m) && forall|i: int|
                        0 <= i < identity.len() ==> lookup(m, (#[trigger] identity[i]).0) == Some(
                            identity[i].1,
                        )),
            ),
        ),
{
    lemma_unmatched_is_filter(items, identity);
}

proof fn lemma_unmatched_is_filter(items: Seq<JsonV>, identity: Seq<(Seq<char>, JsonV)>)
    ensures
        unmatched(items, identity) == items.filter(
            |v: JsonV|
                !(v matches JsonV::Object(m) && forall|i: int|
                    0 <= i < identity.len() ==> lookup(m, (#[trigger] identity[i]).0) == Some(
                        identity[i].1,
                    )),
        ),
    decreases items.len(),
{
    let pred = |v: JsonV|
        !(v matches JsonV::Object(m) && forall|i: int|
            0 <= i < identity.len() ==> lookup(m, (#[trigger] identity[i]).0) == Some(identity[i].1));
    reveal(Seq::filter);
    if items.len() > 0 {
        lemma_unmatched_is_filter(items.drop_last(), identity);
        assert(pred(items.last()) == !matches_identity_of(items.last(), identity));
    }
}

} // verus!
