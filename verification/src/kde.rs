//! Letting KWin remember the main window's position on Plasma: recognising a
//! Plasma session, and installing one window rule in `kwinrulesrc` without
//! disturbing the user's own rules.
//!
//! The configuration is read as groups of key/value entries; the steps that
//! decide what to write are here, the reading and writing of the file are the
//! caller's.
use vstd::prelude::*;
use crate::text::{
    ascii_lower, chars_eq, chars_of, decimal, decimal_string, eq_ignore_ascii_case, eq_ignore_case,
    int_error_message, int_error_text, join_texts, joined, parse_unsigned, parse_unsigned_exec,
    split_on, split_text, str_eq, texts_view, to_ascii_lower,
};

verus! {

/// One `[group]` of a key file with its entries, in file order.
#[derive(Debug)]
pub struct KeyFileGroup {
    pub name: String,
    pub entries: Vec<(String, String)>,
}

/// A key file as its reader reports it: groups in file order.
#[derive(Debug)]
pub struct KeyFileData {
    pub groups: Vec<KeyFileGroup>,
}

pub open spec fn entries_view(e: Seq<(String, String)>) -> Seq<(Seq<char>, Seq<char>)> {
    Seq::new(e.len(), |i: int| (e[i].0@, e[i].1@))
}

pub open spec fn groups_view(g: Seq<KeyFileGroup>) -> Seq<(Seq<char>, Seq<(Seq<char>, Seq<char>)>)> {
    Seq::new(g.len(), |i: int| (g[i].name@, entries_view(g[i].entries@)))
}

impl View for KeyFileData {
    type V = Seq<(Seq<char>, Seq<(Seq<char>, Seq<char>)>)>;

    open spec fn view(&self) -> Self::V {
        groups_view(self.groups@)
    }
}

/// The entries of the first group named `g`.
pub open spec fn group_of(
    gs: Seq<(Seq<char>, Seq<(Seq<char>, Seq<char>)>)>,
    g: Seq<char>,
) -> Option<Seq<(Seq<char>, Seq<char>)>>
    decreases gs.len(),
{
    if gs.len() == 0 {
        None
    } else if gs[0].0 == g {
        Some(gs[0].1)
    } else {
        group_of(gs.drop_first(), g)
    }
}

/// The value of the first entry named `k`.
pub open spec fn entry_of(es: Seq<(Seq<char>, Seq<char>)>, k: Seq<char>) -> Option<Seq<char>>
    decreases es.len(),
{
    if es.len() == 0 {
        None
    } else if es[0].0 == k {
        Some(es[0].1)
    } else {
        entry_of(es.drop_first(), k)
    }
}

/// The value of key `k` in group `g`.
pub open spec fn key_value(
    cfg: Seq<(Seq<char>, Seq<(Seq<char>, Seq<char>)>)>,
    g: Seq<char>,
    k: Seq<char>,
) -> Option<Seq<char>> {
    match group_of(cfg, g) {
        Some(es) => entry_of(es, k),
        None => None,
    }
}

/// The value of key `k` in group `g`, empty when there is none.
pub open spec fn value_of(
    cfg: Seq<(Seq<char>, Seq<(Seq<char>, Seq<char>)>)>,
    g: Seq<char>,
    k: Seq<char>,
) -> Seq<char> {
    match key_value(cfg, g, k) {
        Some(v) => v,
        None => Seq::empty(),
    }
}

impl KeyFileData {
    /// The position of the first group named `g`.
    fn find_group(&self, g: &str) -> (r: Option<usize>)
        ensures
            match r {
                Some(i) => i < self.groups@.len() && group_of(self@, g@) == Some(
                    entries_view(self.groups@[i as int].entries@),
                ),
                None => group_of(self@, g@) is None,
            },
    {
        let mut i: usize = 0;
        assert(self@.skip(0) =~= self@);
        while i < self.groups.len()
            invariant
                i <= self.groups@.len(),
                group_of(self@, g@) == group_of(self@.skip(i as int), g@),
            decreases self.groups@.len() - i,
        {
            assert(self@.skip(i as int)[0] == (self.groups@[i as int].name@, entries_view(
                self.groups@[i as int].entries@,
            )));
            if str_eq(self.groups[i].name.as_str(), g) {
                return Some(i);
            }
            assert(self@.skip(i as int).drop_first() =~= self@.skip(i + 1));
            i += 1;
        }
        None
    }

    /// Whether there is a group named `g`.
    pub fn has_group(&self, g: &str) -> (r: bool)
        ensures
            r == (group_of(self@, g@) is Some),
    {
        self.find_group(g).is_some()
    }

    /// The value of key `k` in group `g`.
    pub fn key_value(&self, g: &str, k: &str) -> (r: Option<String>)
        ensures
            match r {
                Some(v) => key_value(self@, g@, k@) == Some(v@),
                None => key_value(self@, g@, k@) is None,
            },
    {
        let gi = match self.find_group(g) {
            Some(gi) => gi,
            None => return None,
        };
        let es = &self.groups[gi].entries;
        let ghost ev = entries_view(es@);
        let mut i: usize = 0;
        assert(ev.skip(0) =~= ev);
        while i < es.len()
            invariant
                i <= es@.len(),
                ev == entries_view(es@),
                group_of(self@, g@) == Some(ev),
                entry_of(ev, k@) == entry_of(ev.skip(i as int), k@),
            decreases es@.len() - i,
        {
            assert(ev.skip(i as int)[0] == (es@[i as int].0@, es@[i as int].1@));
            if str_eq(es[i].0.as_str(), k) {
                return Some(es[i].1.clone());
            }
            assert(ev.skip(i as int).drop_first() =~= ev.skip(i + 1));
            i += 1;
        }
        None
    }

    /// The value of key `k` in group `g`, or empty.
    pub fn value(&self, g: &str, k: &str) -> (r: String)
        ensures
            r@ == value_of(self@, g@, k@),
    {
        match self.key_value(g, k) {
            Some(v) => v,
            None => String::new(),
        }
    }

    /// Whether group `g` holds key `k` (false when there is no such group).
    pub fn has_key(&self, g: &str, k: &str) -> (r: bool)
        ensures
            r == (key_value(self@, g@, k@) is Some),
    {
        self.key_value(g, k).is_some()
    }
}

/// The identifier of the rule this application installs.
pub open spec fn rule_id() -> Seq<char> {
    "kimaitray-popup-position"@
}

/// The rule's entries: match the main window by class and title, and remember
/// its position.
pub open spec fn rule_entries() -> Seq<(Seq<char>, Seq<char>)> {
    seq![
        ("Description"@, "KimaiTray - remember main window position"@),
        ("wmclass"@, "(?i)^kimaitray$"@),
        ("wmclassmatch"@, "3"@),
        ("wmclasscomplete"@, "false"@),
        ("title"@, "KimaiTray"@),
        ("titlematch"@, "1"@),
        ("positionrule"@, "4"@),
    ]
}

fn rule_entries_exec() -> (r: Vec<(&'static str, &'static str)>)
    ensures
        r@.len() == rule_entries().len(),
        forall|i: int| 0 <= i < r@.len() ==> ((#[trigger] r@[i]).0@, r@[i].1@) == rule_entries()[i],
{
    let r = vec![
        ("Description", "KimaiTray - remember main window position"),
        ("wmclass", "(?i)^kimaitray$"),
        ("wmclassmatch", "3"),
        ("wmclasscomplete", "false"),
        ("title", "KimaiTray"),
        ("titlematch", "1"),
        ("positionrule", "4"),
    ];
    assert(r@.len() == 7);
    r
}

/// Whether `c` may appear in a rule identifier that this code rewrites.
pub open spec fn id_char(c: char) -> bool {
    ('a' <= c <= 'z') || ('A' <= c <= 'Z') || ('0' <= c <= '9') || c == '-' || c == '_' || c == '.'
}

/// A rule identifier that survives KConfig's list syntax unchanged.
pub open spec fn plain_id(id: Seq<char>) -> bool {
    id.len() > 0 && forall|i: int| 0 <= i < id.len() ==> id_char(#[trigger] id[i])
}

pub open spec fn order_message() -> Seq<char> {
    "Unrecognised KWin rule ordering format; leaving it unchanged"@
}

pub open spec fn identifiers_message() -> Seq<char> {
    "Unrecognised KWin rule identifiers; leaving them unchanged"@
}

/// The identifiers `1` to `n`.
pub open spec fn numbered_ids(n: nat) -> Seq<Seq<char>> {
    Seq::new(n, |i: int| decimal((i + 1) as nat))
}

/// The identifiers that `[General]` lists: its `rules` list split at commas,
/// or else `1` to `count` (at most 10000).
pub open spec fn listed_ids_of(cfg: Seq<(Seq<char>, Seq<(Seq<char>, Seq<char>)>)>) -> Result<Seq<Seq<char>>, Seq<char>> {
    let rules = value_of(cfg, "General"@, "rules"@);
    if rules.len() == 0 {
        let count = value_of(cfg, "General"@, "count"@);
        if count.len() == 0 {
            Ok(numbered_ids(0))
        } else {
            match parse_unsigned(count, usize::MAX as nat) {
                Ok(n) => if n > 10000 {
                    Err("Invalid KWin rule count"@)
                } else {
                    Ok(numbered_ids(n))
                },
                Err(e) => Err(int_error_message(e)),
            }
        }
    } else {
        Ok(split_on(rules, ','))
    }
}

/// The rule identifiers in order (see `listed_ids_of`); refused when KWin's
/// newer `order` format is present or an identifier is empty or has a
/// character other than an ASCII letter, a digit, `-`, `_` or `.`.
pub open spec fn rule_ids_of(cfg: Seq<(Seq<char>, Seq<(Seq<char>, Seq<char>)>)>) -> Result<Seq<Seq<char>>, Seq<char>> {
    if key_value(cfg, "General"@, "order"@) is Some {
        Err(order_message())
    } else {
        match listed_ids_of(cfg) {
            Err(m) => Err(m),
            Ok(ids) => if forall|i: int| 0 <= i < ids.len() ==> plain_id(#[trigger] ids[i]) {
                Ok(ids)
            } else {
                Err(identifiers_message())
            },
        }
    }
}

fn is_plain_id(id: &str) -> (r: bool)
    ensures
        r == plain_id(id@),
{
    let cs = chars_of(id);
    if cs.len() == 0 {
        return false;
    }
    let mut i: usize = 0;
    while i < cs.len()
        invariant
            cs@ == id@,
            i <= cs@.len(),
            forall|k: int| 0 <= k < i ==> id_char(cs@[k]),
        decreases cs@.len() - i,
    {
        let c = cs[i];
        if !(('a' <= c && c <= 'z') || ('A' <= c && c <= 'Z') || ('0' <= c && c <= '9') || c == '-'
            || c == '_' || c == '.') {
            return false;
        }
        i += 1;
    }
    true
}

fn numbered_id_list(n: u64) -> (v: Vec<String>)
    requires
        n <= 10000,
    ensures
        texts_view(v@) == numbered_ids(n as nat),
{
    let mut v: Vec<String> = Vec::new();
    let mut k: u64 = 0;
    while k < n
        invariant
            k <= n <= 10000,
            v@.len() == k,
            texts_view(v@) == numbered_ids(k as nat),
        decreases n - k,
    {
        let ghost before = v@;
        v.push(decimal_string(k + 1));
        assert forall|j: int| 0 <= j < k + 1 implies texts_view(v@)[j] == numbered_ids(
            (k + 1) as nat,
        )[j] by {
            if j < k {
                assert(v@[j] == before[j]);
                assert(texts_view(before)[j] == numbered_ids(k as nat)[j]);
            }
        }
        assert(texts_view(v@) =~= numbered_ids((k + 1) as nat));
        k += 1;
    }
    v
}

fn listed_ids(config: &KeyFileData) -> (r: Result<Vec<String>, String>)
    ensures
        match r {
            Ok(ids) => listed_ids_of(config@) == Ok::<Seq<Seq<char>>, Seq<char>>(texts_view(ids@)),
            Err(e) => listed_ids_of(config@) == Err::<Seq<Seq<char>>, Seq<char>>(e@),
        },
{
    let rules = config.value("General", "rules");
    if rules.as_str().unicode_len() == 0 {
        let count = config.value("General", "count");
        if count.as_str().unicode_len() == 0 {
            return Ok(numbered_id_list(0));
        }
        let n = match parse_unsigned_exec(&chars_of(count.as_str()), usize::MAX as u64) {
            Ok(n) => n,
            Err(e) => return Err(int_error_text(e)),
        };
        if n > 10000 {
            return Err(String::from_str("Invalid KWin rule count"));
        }
        Ok(numbered_id_list(n))
    } else {
        Ok(split_text(rules.as_str(), ','))
    }
}

/// The rule identifiers of the configuration, in order.
pub fn rule_ids(config: &KeyFileData) -> (r: Result<Vec<String>, String>)
    ensures
        match r {
            Ok(ids) => rule_ids_of(config@) == Ok::<Seq<Seq<char>>, Seq<char>>(texts_view(ids@)),
            Err(e) => rule_ids_of(config@) == Err::<Seq<Seq<char>>, Seq<char>>(e@),
        },
{
    if config.has_key("General", "order") {
        return Err(String::from_str("Unrecognised KWin rule ordering format; leaving it unchanged"));
    }
    let ids = match listed_ids(config) {
        Ok(ids) => ids,
        Err(e) => return Err(e),
    };
    let ghost listed = texts_view(ids@);
    let mut i: usize = 0;
    while i < ids.len()
        invariant
            i <= ids@.len(),
            listed == texts_view(ids@),
            listed_ids_of(config@) == Ok::<Seq<Seq<char>>, Seq<char>>(listed),
            key_value(config@, "General"@, "order"@) is None,
            forall|k: int| 0 <= k < i ==> plain_id(#[trigger] listed[k]),
        decreases ids@.len() - i,
    {
        if !is_plain_id(ids[i].as_str()) {
            assert(!plain_id(listed[i as int]));
            assert(!(forall|k: int| 0 <= k < listed.len() ==> plain_id(#[trigger] listed[k])));
            return Err(String::from_str("Unrecognised KWin rule identifiers; leaving them unchanged"));
        }
        i += 1;
    }
    Ok(ids)
}

/// Whether `s` ends with `t`.
pub open spec fn ends_with(s: Seq<char>, t: Seq<char>) -> bool {
    s.len() >= t.len() && s.subrange(s.len() - t.len(), s.len() as int) == t
}

fn ends_with_exec(s: &str, t: &str) -> (r: bool)
    ensures
        r == ends_with(s@, t@),
{
    let a = chars_of(s);
    let b = chars_of(t);
    let n = a.len();
    let m = b.len();
    if n < m {
        return false;
    }
    let mut i: usize = 0;
    while i < m
        invariant
            a@ == s@,
            b@ == t@,
            n == a@.len(),
            m == b@.len(),
            m <= n,
            i <= m,
            forall|k: int| 0 <= k < i ==> a@[n - m + k] == b@[k],
        decreases m - i,
    {
        let j: usize = n - m + i;
        if a[j] != b[i] {
            assert(s@.subrange(s@.len() - t@.len(), s@.len() as int)[i as int] != t@[i as int]);
            return false;
        }
        i += 1;
    }
    assert(s@.subrange(s@.len() - t@.len(), s@.len() as int) =~= t@);
    true
}

/// A value KWin reads as "not set": empty or `0`.
pub open spec fn unset(v: Seq<char>) -> bool {
    v == ""@ || v == "0"@
}

/// Whether rule `id` matches this application's main window: its class
/// (`kimaitray` exactly up to case, or the rule's own case-insensitive regular
/// expression) and its exact title.
pub open spec fn matches_window(cfg: Seq<(Seq<char>, Seq<(Seq<char>, Seq<char>)>)>, id: Seq<char>) -> bool {
    let class = value_of(cfg, id, "wmclass"@);
    let class_match = value_of(cfg, id, "wmclassmatch"@);
    &&& ((class_match == "1"@ && eq_ignore_case(class, "kimaitray"@)) || (class_match == "3"@
        && class == "(?i)^kimaitray$"@))
    &&& value_of(cfg, id, "title"@) == "KimaiTray"@
    &&& value_of(cfg, id, "titlematch"@) == "1"@
}

/// A matching rule of someone else's that leaves the position alone, and so
/// is passed over.
pub open spec fn passed_over(cfg: Seq<(Seq<char>, Seq<(Seq<char>, Seq<char>)>)>, id: Seq<char>) -> bool {
    id != rule_id() && unset(value_of(cfg, id, "positionrule"@))
}

/// Every `...match` key of rule `id` other than the class and title matches is
/// unset, so the rule narrows the window by nothing else.
pub open spec fn no_other_match(cfg: Seq<(Seq<char>, Seq<(Seq<char>, Seq<char>)>)>, id: Seq<char>) -> bool {
    match group_of(cfg, id) {
        Some(es) => forall|j: int|
            0 <= j < es.len() ==> {
                let key = #[trigger] es[j].0;
                !ends_with(key, "match"@) || key == "wmclassmatch"@ || key == "titlematch"@ || unset(
                    value_of(cfg, id, key),
                )
            },
        None => false,
    }
}

/// Whether a `types` value selects normal windows (bit 0); a value that is not
/// a `u32` counts as all types.
pub open spec fn selects_normal_windows(types: Seq<char>) -> bool {
    match parse_unsigned(types, u32::MAX as nat) {
        Ok(n) => n % 2 == 1,
        Err(_) => true,
    }
}

/// Whether matching rule `id` remembers the position of this window in every
/// session: position rule "remember", the regular-expression class match,
/// enabled, no completeness requirement and no other restriction.
pub open spec fn remembers(cfg: Seq<(Seq<char>, Seq<(Seq<char>, Seq<char>)>)>, id: Seq<char>) -> bool {
    let enabled = value_of(cfg, id, "enabled"@);
    let complete = value_of(cfg, id, "wmclasscomplete"@);
    &&& value_of(cfg, id, "positionrule"@) == "4"@
    &&& value_of(cfg, id, "wmclassmatch"@) == "3"@
    &&& !(enabled == "false"@ || enabled == "0"@)
    &&& (complete == ""@ || complete == "false"@ || complete == "0"@)
    &&& no_other_match(cfg, id)
    &&& selects_normal_windows(value_of(cfg, id, "types"@))
}

/// What the first listed rule for this window says: `Some(true)` when it
/// remembers the position as intended, `Some(false)` when the user changed or
/// disabled it, `None` when no listed rule matches.
pub open spec fn existing_policy_of(
    cfg: Seq<(Seq<char>, Seq<(Seq<char>, Seq<char>)>)>,
    ids: Seq<Seq<char>>,
) -> Option<bool>
    decreases ids.len(),
{
    if ids.len() == 0 {
        None
    } else if matches_window(cfg, ids[0]) && !passed_over(cfg, ids[0]) {
        Some(remembers(cfg, ids[0]))
    } else {
        existing_policy_of(cfg, ids.drop_first())
    }
}

fn text_is(v: &String, lit: &str) -> (r: bool)
    ensures
        r == (v@ == lit@),
{
    str_eq(v.as_str(), lit)
}

fn no_other_match_exec(config: &KeyFileData, id: &str) -> (r: bool)
    ensures
        r == no_other_match(config@, id@),
{
    let gi = match config.find_group(id) {
        Some(gi) => gi,
        None => return false,
    };
    let es = &config.groups[gi].entries;
    let ghost ev = entries_view(es@);
    let mut j: usize = 0;
    while j < es.len()
        invariant
            j <= es@.len(),
            ev == entries_view(es@),
            group_of(config@, id@) == Some(ev),
            forall|k: int|
                0 <= k < j ==> {
                    let key = #[trigger] ev[k].0;
                    !ends_with(key, "match"@) || key == "wmclassmatch"@ || key == "titlematch"@
                        || unset(value_of(config@, id@, key))
                },
        decreases es@.len() - j,
    {
        let key = es[j].0.as_str();
        assert(ev[j as int].0 == key@);
        if ends_with_exec(key, "match") && !str_eq(key, "wmclassmatch") && !str_eq(key, "titlematch") {
            let v = config.value(id, key);
            if !(text_is(&v, "") || text_is(&v, "0")) {
                return false;
            }
        }
        j += 1;
    }
    true
}

fn selects_normal_windows_exec(types: &String) -> (r: bool)
    ensures
        r == selects_normal_windows(types@),
{
    match parse_unsigned_exec(&chars_of(types.as_str()), u32::MAX as u64) {
        Ok(n) => n % 2 == 1,
        Err(_) => true,
    }
}

fn matches_window_exec(config: &KeyFileData, id: &str) -> (r: bool)
    ensures
        r == matches_window(config@, id@),
{
    let class = config.value(id, "wmclass");
    let class_match = config.value(id, "wmclassmatch");
    let by_class = (text_is(&class_match, "1") && eq_ignore_ascii_case(class.as_str(), "kimaitray"))
        || (text_is(&class_match, "3") && text_is(&class, "(?i)^kimaitray$"));
    by_class && text_is(&config.value(id, "title"), "KimaiTray") && text_is(
        &config.value(id, "titlematch"),
        "1",
    )
}

fn remembers_exec(config: &KeyFileData, id: &str) -> (r: bool)
    ensures
        r == remembers(config@, id@),
{
    let enabled = config.value(id, "enabled");
    let complete = config.value(id, "wmclasscomplete");
    text_is(&config.value(id, "positionrule"), "4") && text_is(&config.value(id, "wmclassmatch"), "3")
        && !(text_is(&enabled, "false") || text_is(&enabled, "0")) && (text_is(&complete, "")
        || text_is(&complete, "false") || text_is(&complete, "0")) && no_other_match_exec(config, id)
        && selects_normal_windows_exec(&config.value(id, "types"))
}

/// What the first listed rule matching this window says (see
/// `existing_policy_of`).
pub fn existing_policy(config: &KeyFileData, ids: &Vec<String>) -> (r: Option<bool>)
    ensures
        r == existing_policy_of(config@, texts_view(ids@)),
{
    let ghost all = texts_view(ids@);
    let mut i: usize = 0;
    assert(all.skip(0) =~= all);
    while i < ids.len()
        invariant
            i <= ids@.len(),
            all == texts_view(ids@),
            existing_policy_of(config@, all) == existing_policy_of(config@, all.skip(i as int)),
        decreases ids@.len() - i,
    {
        let id = ids[i].as_str();
        assert(all.skip(i as int)[0] == id@);
        assert(all.skip(i as int).drop_first() =~= all.skip(i + 1));
        if matches_window_exec(config, id) {
            let position = config.value(id, "positionrule");
            let passed = !str_eq(id, "kimaitray-popup-position") && (text_is(&position, "") || text_is(
                &position,
                "0",
            ));
            if !passed {
                return Some(remembers_exec(config, id));
            }
        }
        i += 1;
    }
    None
}

/// A desktop name that stands for Plasma, up to ASCII case.
pub open spec fn plasma_name(name: Seq<char>) -> bool {
    let l = ascii_lower(name);
    l == "kde"@ || l == "plasma"@ || l == "plasmawayland"@
}

/// Whether a colon-separated desktop list (as in `XDG_CURRENT_DESKTOP`)
/// names Plasma.
pub open spec fn plasma_desktop(desktop: Seq<char>) -> bool {
    exists|i: int| 0 <= i < split_on(desktop, ':').len() && plasma_name(#[trigger] split_on(desktop, ':')[i])
}

/// Whether a colon-separated desktop list names Plasma.
pub fn is_plasma(desktop: &str) -> (r: bool)
    ensures
        r == plasma_desktop(desktop@),
{
    let names = split_text(desktop, ':');
    let ghost parts = split_on(desktop@, ':');
    let kde = chars_of("kde");
    let plasma = chars_of("plasma");
    let wayland = chars_of("plasmawayland");
    let mut i: usize = 0;
    while i < names.len()
        invariant
            texts_view(names@) == parts,
            parts == split_on(desktop@, ':'),
            kde@ == "kde"@,
            plasma@ == "plasma"@,
            wayland@ == "plasmawayland"@,
            i <= names@.len(),
            forall|k: int| 0 <= k < i ==> !plasma_name(#[trigger] parts[k]),
        decreases names@.len() - i,
    {
        let l = to_ascii_lower(names[i].as_str());
        assert(parts[i as int] == names@[i as int]@);
        if chars_eq(&l, &kde) || chars_eq(&l, &plasma) || chars_eq(&l, &wayland) {
            assert(plasma_name(parts[i as int]));
            return true;
        }
        i += 1;
    }
    false
}

/// The desktop list to look at: `XDG_CURRENT_DESKTOP` when it is set, else
/// `XDG_SESSION_DESKTOP`, else nothing.
pub open spec fn session_desktop(current: Option<Seq<char>>, session: Option<Seq<char>>) -> Seq<char> {
    match current {
        Some(d) => d,
        None => match session {
            Some(d) => d,
            None => Seq::empty(),
        },
    }
}

/// Whether the session, described by the two desktop variables, is Plasma,
/// where the position rule is worth setting up.
pub fn is_plasma_session(current: Option<&str>, session: Option<&str>) -> (r: bool)
    ensures
        r == plasma_desktop(
            session_desktop(
                match current {
                    Some(d) => Some(d@),
                    None => None,
                },
                match session {
                    Some(d) => Some(d@),
                    None => None,
                },
            ),
        ),
{
    match current {
        Some(d) => is_plasma(d),
        None => match session {
            Some(d) => is_plasma(d),
            None => {
                proof {
                    reveal_strlit("");
                }
                assert(""@ =~= Seq::<char>::empty());
                is_plasma("")
            },
        },
    }
}

/// One value to write into the configuration file.
#[derive(Debug)]
pub struct KeyWrite {
    pub group: String,
    pub key: String,
    pub value: String,
}

impl View for KeyWrite {
    type V = (Seq<char>, Seq<char>, Seq<char>);

    open spec fn view(&self) -> Self::V {
        (self.group@, self.key@, self.value@)
    }
}

/// Where installing the rule stands; each stage waits for a fresh read of the
/// configuration file.
#[derive(Debug)]
pub enum RuleStage {
    /// Nothing written yet.
    Inspect,
    /// The rule's group was written and is to be checked and registered.
    Written,
    /// The rule list was written as these identifiers and is to be checked.
    Registered(Vec<String>),
}

pub enum RuleStageV {
    Inspect,
    Written,
    Registered(Seq<Seq<char>>),
}

impl View for RuleStage {
    type V = RuleStageV;

    open spec fn view(&self) -> RuleStageV {
        match self {
            RuleStage::Inspect => RuleStageV::Inspect,
            RuleStage::Written => RuleStageV::Written,
            RuleStage::Registered(ids) => RuleStageV::Registered(texts_view(ids@)),
        }
    }
}

/// What the caller does next.
#[derive(Debug)]
pub enum RuleAction {
    /// Installation is over: whether KWin remembers the position, or why not.
    Done(Result<bool, String>),
    /// Write these values in order, stopping with the error at the first one
    /// that fails; then read the file again and continue at the stage given.
    Write(Vec<KeyWrite>, RuleStage),
}

pub enum RuleActionV {
    Done(Result<bool, Seq<char>>),
    Write(Seq<(Seq<char>, Seq<char>, Seq<char>)>, RuleStageV),
}

impl View for RuleAction {
    type V = RuleActionV;

    open spec fn view(&self) -> RuleActionV {
        match self {
            RuleAction::Done(Ok(b)) => RuleActionV::Done(Ok(*b)),
            RuleAction::Done(Err(e)) => RuleActionV::Done(Err(e@)),
            RuleAction::Write(ws, next) => RuleActionV::Write(
                Seq::new(ws@.len(), |i: int| ws@[i]@),
                next@,
            ),
        }
    }
}

/// The writes that create the rule's group, one entry at a time.
pub open spec fn rule_writes() -> Seq<(Seq<char>, Seq<char>, Seq<char>)> {
    Seq::new(rule_entries().len(), |i: int| (rule_id(), rule_entries()[i].0, rule_entries()[i].1))
}

/// Whether the rule's group holds every entry of the rule.
pub open spec fn rule_in_place(cfg: Seq<(Seq<char>, Seq<(Seq<char>, Seq<char>)>)>) -> bool {
    forall|i: int|
        0 <= i < rule_entries().len() ==> value_of(cfg, rule_id(), #[trigger] rule_entries()[i].0)
            == rule_entries()[i].1
}

/// The rule list with this rule's identifier appended unless already there.
pub open spec fn with_rule(ids: Seq<Seq<char>>) -> Seq<Seq<char>> {
    if ids.contains(rule_id()) {
        ids
    } else {
        ids.push(rule_id())
    }
}

pub open spec fn write_check_message() -> Seq<char> {
    "KWin rule write could not be verified"@
}

pub open spec fn registration_check_message() -> Seq<char> {
    "KWin rule registration could not be verified"@
}

/// One step of installing the rule, given the configuration as just read.
///
/// First look: refuse a configuration whose rule list cannot be read back
/// unchanged; keep what a matching rule already says; leave a half-written or
/// listed group of ours alone; otherwise write the rule's group.  After the
/// group is written: check it, then register it by rewriting the rule list as
/// read now (so that rules added meanwhile stay) with ours at the end, and the
/// count.  After registering: done once the list reads back as written.
pub open spec fn rule_step(stage: RuleStageV, cfg: Seq<(Seq<char>, Seq<(Seq<char>, Seq<char>)>)>) -> RuleActionV {
    match stage {
        RuleStageV::Inspect => match rule_ids_of(cfg) {
            Err(m) => RuleActionV::Done(Err(m)),
            Ok(ids) => match existing_policy_of(cfg, ids) {
                Some(enabled) => RuleActionV::Done(Ok(enabled)),
                None => if group_of(cfg, rule_id()) is Some || ids.contains(rule_id()) {
                    RuleActionV::Done(Ok(false))
                } else {
                    RuleActionV::Write(rule_writes(), RuleStageV::Written)
                },
            },
        },
        RuleStageV::Written => if !rule_in_place(cfg) {
            RuleActionV::Done(Err(write_check_message()))
        } else {
            match rule_ids_of(cfg) {
                Err(m) => RuleActionV::Done(Err(m)),
                Ok(ids) => {
                    let all = with_rule(ids);
                    RuleActionV::Write(
                        seq![
                            ("General"@, "rules"@, joined(all, ","@)),
                            ("General"@, "count"@, decimal(all.len())),
                        ],
                        RuleStageV::Registered(all),
                    )
                },
            }
        },
        RuleStageV::Registered(expected) => match rule_ids_of(cfg) {
            Err(m) => RuleActionV::Done(Err(m)),
            Ok(ids) => if ids == expected {
                RuleActionV::Done(Ok(true))
            } else {
                RuleActionV::Done(Err(registration_check_message()))
            },
        },
    }
}

fn lists_id(ids: &Vec<String>, id: &str) -> (r: bool)
    ensures
        r == texts_view(ids@).contains(id@),
{
    let mut i: usize = 0;
    while i < ids.len()
        invariant
            i <= ids@.len(),
            forall|k: int| 0 <= k < i ==> texts_view(ids@)[k] != id@,
        decreases ids@.len() - i,
    {
        if str_eq(ids[i].as_str(), id) {
            assert(texts_view(ids@)[i as int] == id@);
            return true;
        }
        i += 1;
    }
    false
}

fn same_ids(a: &Vec<String>, b: &Vec<String>) -> (r: bool)
    ensures
        r == (texts_view(a@) == texts_view(b@)),
{
    if a.len() != b.len() {
        assert(texts_view(a@).len() != texts_view(b@).len());
        return false;
    }
    let mut i: usize = 0;
    while i < a.len()
        invariant
            a@.len() == b@.len(),
            i <= a@.len(),
            forall|k: int| 0 <= k < i ==> texts_view(a@)[k] == texts_view(b@)[k],
        decreases a@.len() - i,
    {
        if !str_eq(a[i].as_str(), b[i].as_str()) {
            assert(texts_view(a@)[i as int] != texts_view(b@)[i as int]);
            return false;
        }
        i += 1;
    }
    assert(texts_view(a@) =~= texts_view(b@));
    true
}

fn key_write(group: &str, key: &str, value: String) -> (w: KeyWrite)
    ensures
        w@ == (group@, key@, value@),
{
    KeyWrite { group: String::from_str(group), key: String::from_str(key), value }
}

fn rule_group_writes() -> (ws: Vec<KeyWrite>)
    ensures
        Seq::new(ws@.len(), |i: int| ws@[i]@) == rule_writes(),
{
    let entries = rule_entries_exec();
    let mut ws: Vec<KeyWrite> = Vec::new();
    let mut i: usize = 0;
    while i < entries.len()
        invariant
            i <= entries@.len(),
            entries@.len() == rule_entries().len(),
            forall|k: int| 0 <= k < entries@.len() ==> ((#[trigger] entries@[k]).0@, entries@[k].1@) == rule_entries()[k],
            ws@.len() == i,
            forall|k: int| 0 <= k < i ==> (#[trigger] ws@[k])@ == rule_writes()[k],
        decreases entries@.len() - i,
    {
        let (key, value) = entries[i];
        ws.push(key_write("kimaitray-popup-position", key, String::from_str(value)));
        i += 1;
    }
    assert(Seq::new(ws@.len(), |i: int| ws@[i]@) =~= rule_writes());
    ws
}

fn rule_in_place_exec(config: &KeyFileData) -> (r: bool)
    ensures
        r == rule_in_place(config@),
{
    let entries = rule_entries_exec();
    let mut i: usize = 0;
    while i < entries.len()
        invariant
            i <= entries@.len(),
            entries@.len() == rule_entries().len(),
            forall|k: int| 0 <= k < entries@.len() ==> ((#[trigger] entries@[k]).0@, entries@[k].1@) == rule_entries()[k],
            forall|k: int| 0 <= k < i ==> value_of(config@, rule_id(), #[trigger] rule_entries()[k].0) == rule_entries()[k].1,
        decreases entries@.len() - i,
    {
        let (key, expected) = entries[i];
        let v = config.value("kimaitray-popup-position", key);
        if !text_is(&v, expected) {
            assert(rule_entries()[i as int].0 == key@);
            return false;
        }
        i += 1;
    }
    true
}

/// One step of installing the rule (see `rule_step`), given the
/// configuration file as just read.
pub fn ensure_rule(stage: &RuleStage, config: &KeyFileData) -> (r: RuleAction)
    ensures
        r@ == rule_step(stage@, config@),
{
    match stage {
        RuleStage::Inspect => {
            let ids = match rule_ids(config) {
                Ok(ids) => ids,
                Err(m) => return RuleAction::Done(Err(m)),
            };
            if let Some(enabled) = existing_policy(config, &ids) {
                return RuleAction::Done(Ok(enabled));
            }
            if config.has_group("kimaitray-popup-position") || lists_id(&ids, "kimaitray-popup-position") {
                return RuleAction::Done(Ok(false));
            }
            RuleAction::Write(rule_group_writes(), RuleStage::Written)
        },
        RuleStage::Written => {
            if !rule_in_place_exec(config) {
                return RuleAction::Done(Err(String::from_str("KWin rule write could not be verified")));
            }
            let mut ids = match rule_ids(config) {
                Ok(ids) => ids,
                Err(m) => return RuleAction::Done(Err(m)),
            };
            let ghost read = texts_view(ids@);
            if !lists_id(&ids, "kimaitray-popup-position") {
                ids.push(String::from_str("kimaitray-popup-position"));
                assert(texts_view(ids@) =~= read.push(rule_id()));
            }
            assert(texts_view(ids@) == with_rule(read));
            let list = join_texts(&ids, ",");
            let count = decimal_string(ids.len() as u64);
            let mut ws: Vec<KeyWrite> = Vec::new();
            ws.push(key_write("General", "rules", list));
            ws.push(key_write("General", "count", count));
            let ghost wv = Seq::new(ws@.len(), |i: int| ws@[i]@);
            assert(wv =~= seq![
                ("General"@, "rules"@, joined(with_rule(read), ","@)),
                ("General"@, "count"@, decimal(with_rule(read).len())),
            ]);
            RuleAction::Write(ws, RuleStage::Registered(ids))
        },
        RuleStage::Registered(expected) => {
            let ids = match rule_ids(config) {
                Ok(ids) => ids,
                Err(m) => return RuleAction::Done(Err(m)),
            };
            if same_ids(&ids, expected) {
                RuleAction::Done(Ok(true))
            } else {
                RuleAction::Done(Err(String::from_str("KWin rule registration could not be verified")))
            }
        },
    }
}

/// A configuration whose rule list cannot be read back unchanged is never
/// written to, at any stage.
pub proof fn lemma_unrecognised_configuration_is_never_written(
    stage: RuleStageV,
    cfg: Seq<(Seq<char>, Seq<(Seq<char>, Seq<char>)>)>,
)
    requires
        rule_ids_of(cfg) is Err,
    ensures
        rule_step(stage, cfg) is Done,
{
}

/// A rule for this window that is already listed is never rewritten: its
/// verdict is the answer.
pub proof fn lemma_existing_rule_is_kept(cfg: Seq<(Seq<char>, Seq<(Seq<char>, Seq<char>)>)>, ids: Seq<Seq<char>>)
    requires
        rule_ids_of(cfg) == Ok::<Seq<Seq<char>>, Seq<char>>(ids),
        existing_policy_of(cfg, ids) is Some,
    ensures
        rule_step(RuleStageV::Inspect, cfg) == RuleActionV::Done(Ok(existing_policy_of(cfg, ids)->0)),
{
}

/// A listed rule of someone else's whose `positionrule` is empty or `0` leaves
/// the position alone: whatever else it says, it is skipped, and the verdict
/// is that of the rules listed after it.
pub proof fn lemma_position_neutral_rule_is_skipped(
    cfg: Seq<(Seq<char>, Seq<(Seq<char>, Seq<char>)>)>,
    id: Seq<char>,
    rest: Seq<Seq<char>>,
)
    requires
        id != rule_id(),
        value_of(cfg, id, "positionrule"@) == ""@ || value_of(cfg, id, "positionrule"@) == "0"@,
    ensures
        existing_policy_of(cfg, seq![id] + rest) == existing_policy_of(cfg, rest),
{
    reveal_strlit("");
    reveal_strlit("0");
    let ids = seq![id] + rest;
    assert(ids[0] == id);
    assert(ids.drop_first() =~= rest);
}

/// Where every listed rule is someone else's and leaves the position alone,
/// and no group of ours exists, the first look writes our rule's group.
pub proof fn lemma_rule_installed_past_position_neutral_rules(
    cfg: Seq<(Seq<char>, Seq<(Seq<char>, Seq<char>)>)>,
    ids: Seq<Seq<char>>,
)
    requires
        rule_ids_of(cfg) == Ok::<Seq<Seq<char>>, Seq<char>>(ids),
        forall|i: int|
            0 <= i < ids.len() ==> #[trigger] ids[i] != rule_id() && (value_of(cfg, ids[i], "positionrule"@)
                == ""@ || value_of(cfg, ids[i], "positionrule"@) == "0"@),
        group_of(cfg, rule_id()) is None,
    ensures
        rule_step(RuleStageV::Inspect, cfg) == RuleActionV::Write(rule_writes(), RuleStageV::Written),
{
    lemma_no_policy_past_position_neutral_rules(cfg, ids);
    if ids.contains(rule_id()) {
        let i = choose|i: int| 0 <= i < ids.len() && ids[i] == rule_id();
        assert(ids[i] != rule_id());
    }
}

proof fn lemma_no_policy_past_position_neutral_rules(
    cfg: Seq<(Seq<char>, Seq<(Seq<char>, Seq<char>)>)>,
    ids: Seq<Seq<char>>,
)
    requires
        forall|i: int|
            0 <= i < ids.len() ==> #[trigger] ids[i] != rule_id() && (value_of(cfg, ids[i], "positionrule"@)
                == ""@ || value_of(cfg, ids[i], "positionrule"@) == "0"@),
    ensures
        existing_policy_of(cfg, ids) is None,
    decreases ids.len(),
{
    if ids.len() > 0 {
        let rest = ids.drop_first();
        assert(ids[0] != rule_id());
        assert(seq![ids[0]] + rest =~= ids);
        lemma_position_neutral_rule_is_skipped(cfg, ids[0], rest);
        assert forall|i: int| 0 <= i < rest.len() implies #[trigger] rest[i] != rule_id() && (value_of(
            cfg,
            rest[i],
            "positionrule"@,
        ) == ""@ || value_of(cfg, rest[i], "positionrule"@) == "0"@) by {
            assert(rest[i] == ids[i + 1]);
        }
        lemma_no_policy_past_position_neutral_rules(cfg, rest);
    }
}

/// The rule's group is only written where no group of that name exists yet.
pub proof fn lemma_rule_group_is_written_only_when_absent(cfg: Seq<(Seq<char>, Seq<(Seq<char>, Seq<char>)>)>)
    requires
        rule_step(RuleStageV::Inspect, cfg) is Write,
    ensures
        group_of(cfg, rule_id()) is None,
        rule_ids_of(cfg) is Ok,
        !rule_ids_of(cfg)->Ok_0.contains(rule_id()),
{
}

/// Registering keeps every identifier listed when the group was checked, in
/// order, and lists this rule exactly at the end unless it was listed already;
/// the count written is the length of the new list.
pub proof fn lemma_registration_keeps_listed_rules(cfg: Seq<(Seq<char>, Seq<(Seq<char>, Seq<char>)>)>)
    requires
        rule_step(RuleStageV::Written, cfg) is Write,
    ensures
        rule_ids_of(cfg) is Ok,
        ({
            let ids = rule_ids_of(cfg)->Ok_0;
            let all = with_rule(ids);
            &&& all.take(ids.len() as int) == ids
            &&& all.contains(rule_id())
            &&& all.len() <= ids.len() + 1
            &&& rule_step(RuleStageV::Written, cfg) == RuleActionV::Write(
                seq![("General"@, "rules"@, joined(all, ","@)), ("General"@, "count"@, decimal(all.len()))],
                RuleStageV::Registered(all),
            )
        }),
{
    let ids = rule_ids_of(cfg)->Ok_0;
    if !ids.contains(rule_id()) {
        assert(ids.push(rule_id())[ids.len() as int] == rule_id());
        assert(ids.push(rule_id()).take(ids.len() as int) =~= ids);
    } else {
        assert(ids.take(ids.len() as int) =~= ids);
    }
}

/// What the position setup has done so far.  KWin is taken to remember the
/// main window's position only once an enabled rule has been settled (and,
/// after a write, KWin has reloaded it); once it does, that never reverts.
#[derive(Debug)]
pub struct KdeSetup {
    remembers_position: bool,
    reload_pending: bool,
    rule_in_place: bool,
}

impl KdeSetup {
    /// KWin remembers the main window's position.
    pub closed spec fn remembers(self) -> bool {
        self.remembers_position
    }

    /// The configuration file was written since KWin last reloaded it.
    pub closed spec fn pending_reload(self) -> bool {
        self.reload_pending
    }

    /// An enabled rule has been settled in the configuration.
    pub closed spec fn enabled_rule_settled(self) -> bool {
        self.rule_in_place
    }

    #[verifier::type_invariant]
    spec fn remembers_only_with_rule(self) -> bool {
        self.remembers_position ==> self.rule_in_place
    }

    /// Nothing done yet.
    pub fn new() -> (s: KdeSetup)
        ensures
            !s.remembers(),
            !s.pending_reload(),
            !s.enabled_rule_settled(),
    {
        KdeSetup { remembers_position: false, reload_pending: false, rule_in_place: false }
    }

    /// A value was written to the configuration file.
    pub fn record_write(&mut self)
        ensures
            final(self).pending_reload(),
            final(self).remembers() == old(self).remembers(),
            final(self).enabled_rule_settled() == old(self).enabled_rule_settled(),
    {
        proof {
            use_type_invariant(&*self);
        }
        self.reload_pending = true;
    }

    /// The rule was settled, in place (`enabled`) or not.  Returns whether KWin
    /// must reload its configuration first: only after a write, since reloading
    /// an unchanged rule can lose positions KWin has not saved yet.  Without a
    /// pending write an enabled rule counts as remembering at once.
    pub fn rule_settled(&mut self, enabled: bool) -> (reload: bool)
        ensures
            reload == (enabled && old(self).pending_reload()),
            final(self).pending_reload() == old(self).pending_reload(),
            final(self).enabled_rule_settled() == (old(self).enabled_rule_settled() || enabled),
            final(self).remembers() == (old(self).remembers() || (enabled
                && !old(self).pending_reload())),
    {
        proof {
            use_type_invariant(&*self);
        }
        if enabled {
            self.rule_in_place = true;
            if !self.reload_pending {
                self.remembers_position = true;
            }
        }
        enabled && self.reload_pending
    }

    /// KWin reloaded its configuration.  From then on it remembers the
    /// position if an enabled rule has been settled.
    pub fn reloaded(&mut self)
        ensures
            !final(self).pending_reload(),
            final(self).enabled_rule_settled() == old(self).enabled_rule_settled(),
            final(self).remembers() == (old(self).remembers() || old(self).enabled_rule_settled()),
    {
        proof {
            use_type_invariant(&*self);
        }
        self.reload_pending = false;
        if self.rule_in_place {
            self.remembers_position = true;
        }
    }
}

/// Whether KWin remembers the main window's position: never without an
/// enabled rule settled first.
pub fn remembers_position(setup: &KdeSetup) -> (r: bool)
    ensures
        r == setup.remembers(),
        r ==> setup.enabled_rule_settled(),
{
    proof {
        use_type_invariant(setup);
    }
    setup.remembers_position
}

} // verus!
