//! The lock that KConfig (through QLockFile) takes on a configuration file:
//! `<file>.lock`, holding the owner's process id, program name, host name,
//! machine id and boot id, one per line.  What the marker says, and when a
//! marker left behind may be removed, is decided here; the files are the
//! caller's.
use vstd::prelude::*;
use crate::text::{
    chars_of, decimal, parse_unsigned, parse_unsigned_exec, split_on, split_text, str_eq,
    string_of, texts_view,
};

verus! {

/// The lines of a lock marker for process `pid` of program `program` on the
/// machine with host name `host`, machine id `machine` and boot id `boot`.
pub open spec fn marker_text(pid: u32, program: Seq<char>, host: Seq<char>, machine: Seq<char>, boot: Seq<char>) -> Seq<char> {
    decimal(pid as nat) + "\n"@ + program + "\n"@ + host + "\n"@ + machine + "\n"@ + boot + "\n"@
}

/// The marker that a lock holder writes.
pub fn lock_marker(pid: u32, program: &str, host: &str, machine: &str, boot: &str) -> (r: String)
    ensures
        r@ == marker_text(pid, program@, host@, machine@, boot@),
{
    let mut r = crate::text::decimal_string(pid as u64);
    r.append("\n");
    r.append(program);
    r.append("\n");
    r.append(host);
    r.append("\n");
    r.append(machine);
    r.append("\n");
    r.append(boot);
    r.append("\n");
    proof {
        reveal_strlit("\n");
    }
    r
}

/// A line without the carriage return of a `\r\n` ending.
pub open spec fn strip_cr(l: Seq<char>) -> Seq<char> {
    if l.len() > 0 && l.last() == '\r' {
        l.drop_last()
    } else {
        l
    }
}

/// The lines of a text as std's `str::lines` gives them: split at `\n`, a
/// `\r` before the `\n` dropped, and no empty last line after a final `\n`.
pub open spec fn text_lines(s: Seq<char>) -> Seq<Seq<char>> {
    let parts = split_on(s, '\n');
    let init = parts.drop_last().map_values(|l: Seq<char>| strip_cr(l));
    if parts.last().len() == 0 {
        init
    } else {
        init.push(parts.last())
    }
}

fn strip_cr_exec(l: &String) -> (r: String)
    ensures
        r@ == strip_cr(l@),
{
    let cs = chars_of(l.as_str());
    if cs.len() > 0 && cs[cs.len() - 1] == '\r' {
        let mut v = cs;
        v.pop();
        assert(v@ =~= l@.drop_last());
        string_of(&v)
    } else {
        string_of(&cs)
    }
}

/// The lines of `text` (see `text_lines`).
pub fn lines(text: &str) -> (r: Vec<String>)
    ensures
        texts_view(r@) == text_lines(text@),
{
    let parts = split_text(text, '\n');
    let ghost pv = texts_view(parts@);
    proof {
        crate::text::lemma_split_on_nonempty(text@, '\n');
    }
    let n = parts.len();
    let mut out: Vec<String> = Vec::new();
    let mut i: usize = 0;
    while i + 1 < n
        invariant
            pv == texts_view(parts@),
            pv == split_on(text@, '\n'),
            n == parts@.len(),
            n >= 1,
            i + 1 <= n,
            out@.len() == i,
            texts_view(out@) == pv.drop_last().map_values(|l: Seq<char>| strip_cr(l)).take(i as int),
        decreases n - i,
    {
        let ghost before = out@;
        out.push(strip_cr_exec(&parts[i]));
        assert forall|k: int| 0 <= k < i + 1 implies texts_view(out@)[k] == pv.drop_last().map_values(
            |l: Seq<char>| strip_cr(l),
        ).take(i + 1)[k] by {
            if k < i {
                assert(out@[k] == before[k]);
                assert(texts_view(before)[k] == pv.drop_last().map_values(|l: Seq<char>| strip_cr(l)).take(
                    i as int,
                )[k]);
            } else {
                assert(pv[i as int] == parts@[i as int]@);
            }
        }
        assert(texts_view(out@) =~= pv.drop_last().map_values(|l: Seq<char>| strip_cr(l)).take(
            i + 1,
        ));
        i += 1;
    }
    assert(pv.drop_last().map_values(|l: Seq<char>| strip_cr(l)).take(i as int) =~= pv.drop_last().map_values(
        |l: Seq<char>| strip_cr(l),
    ));
    let last = &parts[n - 1];
    if last.as_str().unicode_len() > 0 {
        let ghost before = texts_view(out@);
        out.push(last.clone());
        assert(texts_view(out@) =~= before.push(pv.last()));
    }
    out
}

/// The process id that a marker names on its first line, when that line is
/// a `u32`.
pub open spec fn holder_pid(text: Seq<char>) -> Option<nat> {
    let f = text_lines(text);
    if f.len() == 0 {
        None
    } else {
        match parse_unsigned(f[0], u32::MAX as nat) {
            Ok(n) => Some(n),
            Err(_) => None,
        }
    }
}

/// Whether the marker was left by a process that is gone: one on this host
/// (host name `host`) with a real process id, and either written during
/// another boot (a boot id other than `boot`) or by a process that no longer
/// runs (`alive` false).
pub open spec fn holder_dead(text: Seq<char>, host: Seq<char>, boot: Seq<char>, alive: bool) -> bool {
    match holder_pid(text) {
        None => false,
        Some(pid) => {
            let f = text_lines(text);
            let same_host = f.len() > 2 && f[2] == host;
            let another_boot = f.len() > 4 && f[4].len() > 0 && f[4] != boot;
            same_host && pid > 0 && (another_boot || !alive)
        },
    }
}

/// The process id that a marker names, if any.
pub fn lock_holder(text: &str) -> (r: Option<u32>)
    ensures
        match r {
            Some(p) => holder_pid(text@) == Some(p as nat),
            None => holder_pid(text@) is None,
        },
{
    let f = lines(text);
    if f.len() == 0 {
        return None;
    }
    assert(texts_view(f@)[0] == f@[0]@);
    let first = chars_of(f[0].as_str());
    let parsed = parse_unsigned_exec(&first, 4294967295u64);
    proof {
        crate::text::lemma_parse_unsigned_bound(first@, 4294967295nat);
    }
    match parsed {
        Ok(n) => Some(n as u32),
        Err(_) => None,
    }
}

/// Whether a lock marker may be removed: its holder is gone (see
/// `holder_dead`; `alive` tells whether the named process runs) or the marker
/// is older than QLockFile's stale age (`expired`), and the file at the lock's
/// path is still the one that was read (`same_file`).
pub fn lock_removable(text: &str, host: &str, boot: &str, alive: bool, expired: bool, same_file: bool) -> (r: bool)
    ensures
        r == ((holder_dead(text@, host@, boot@, alive) || expired) && same_file),
{
    let dead = match lock_holder(text) {
        None => false,
        Some(pid) => {
            let f = lines(text);
            let same_host = f.len() > 2 && str_eq(f[2].as_str(), host);
            let another_boot = f.len() > 4 && f[4].as_str().unicode_len() > 0 && !str_eq(
                f[4].as_str(),
                boot,
            );
            proof {
                if f@.len() > 2 {
                    assert(texts_view(f@)[2] == f@[2]@);
                }
                if f@.len() > 4 {
                    assert(texts_view(f@)[4] == f@[4]@);
                }
            }
            same_host && pid > 0 && (another_boot || !alive)
        },
    };
    (dead || expired) && same_file
}

pub open spec fn no_newline(s: Seq<char>) -> bool {
    forall|i: int| 0 <= i < s.len() ==> s[i] != '\n'
}

/// The lines of a marker are the five fields it was written with.
pub proof fn lemma_marker_lines(pid: u32, program: Seq<char>, host: Seq<char>, machine: Seq<char>, boot: Seq<char>)
    requires
        no_newline(program),
        no_newline(host),
        no_newline(machine),
        no_newline(boot),
    ensures
        text_lines(marker_text(pid, program, host, machine, boot)) == seq![
            strip_cr(decimal(pid as nat)),
            strip_cr(program),
            strip_cr(host),
            strip_cr(machine),
            strip_cr(boot),
        ],
{
    reveal_strlit("\n");
    let nl = seq!['\n'];
    let d = decimal(pid as nat);
    crate::text::lemma_decimal_digits(pid as nat);
    let e = Seq::<char>::empty();
    let t1 = d + nl + program;
    let t2 = t1 + nl + host;
    let t3 = t2 + nl + machine;
    let t4 = t3 + nl + boot;
    let t5 = t4 + nl + e;
    assert(marker_text(pid, program, host, machine, boot) =~= t5);
    assert(no_newline(d));
    crate::text::lemma_split_on_absent(d, '\n');
    crate::text::lemma_split_on_absent(program, '\n');
    crate::text::lemma_split_on_absent(host, '\n');
    crate::text::lemma_split_on_absent(machine, '\n');
    crate::text::lemma_split_on_absent(boot, '\n');
    crate::text::lemma_split_on_absent(e, '\n');
    crate::text::lemma_split_on_concat(d, program, '\n');
    crate::text::lemma_split_on_concat(t1, host, '\n');
    crate::text::lemma_split_on_concat(t2, machine, '\n');
    crate::text::lemma_split_on_concat(t3, boot, '\n');
    crate::text::lemma_split_on_concat(t4, e, '\n');
    let parts = split_on(t5, '\n');
    assert(parts =~= seq![d, program, host, machine, boot, e]);
    assert(parts.drop_last().map_values(|l: Seq<char>| strip_cr(l)) =~= seq![
        strip_cr(d),
        strip_cr(program),
        strip_cr(host),
        strip_cr(machine),
        strip_cr(boot),
    ]);
}

/// A marker written by a process that still runs on this machine during this
/// boot is never taken for a dead holder's, whatever host it is checked on:
/// such a lock is removed only once it has expired.
pub proof fn lemma_live_holder_keeps_its_lock(
    pid: u32,
    program: Seq<char>,
    host: Seq<char>,
    machine: Seq<char>,
    boot: Seq<char>,
    this_host: Seq<char>,
)
    requires
        no_newline(program),
        no_newline(host),
        no_newline(machine),
        no_newline(boot),
        boot.len() == 0 || boot.last() != '\r',
    ensures
        !holder_dead(marker_text(pid, program, host, machine, boot), this_host, boot, true),
{
    lemma_marker_lines(pid, program, host, machine, boot);
}

} // verus!
