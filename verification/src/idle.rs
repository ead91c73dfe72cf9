//! How long the user has been idle, read from desktop tools.
//!
//! On Linux, three sources are tried in turn: `xprintidle` (X11), GNOME
//! Mutter's idle monitor, then KWin's idle time (through `qdbus6`, then
//! `qdbus`). Each tool prints the idle time in milliseconds somewhere in its
//! output; the first tool that yields a number answers.
pub mod unsupported;
pub mod windows;

use vstd::prelude::*;
use crate::text::{chars_of, is_digit, parse_unsigned, parse_unsigned_exec};

verus! {

/// `s` without its trailing non-digits.
pub open spec fn strip_trailing_non_digits(s: Seq<char>) -> Seq<char>
    decreases s.len(),
{
    if s.len() > 0 && !is_digit(s.last()) {
        strip_trailing_non_digits(s.drop_last())
    } else {
        s
    }
}

/// The digits at the end of `s`.
pub open spec fn digit_suffix(s: Seq<char>) -> Seq<char>
    decreases s.len(),
{
    if s.len() > 0 && is_digit(s.last()) {
        digit_suffix(s.drop_last()).push(s.last())
    } else {
        Seq::empty()
    }
}

/// The last maximal run of ASCII digits in `s` (empty if there is none).
pub open spec fn last_digit_run(s: Seq<char>) -> Seq<char> {
    digit_suffix(strip_trailing_non_digits(s))
}

/// Whole seconds in an output that reports milliseconds: the last run of
/// digits, read as a `u64`, divided by 1000; nothing when there is no run or
/// the run does not fit.
pub open spec fn seconds_in_output(s: Seq<char>) -> Option<u64> {
    let run = last_digit_run(s);
    if run.len() == 0 {
        None
    } else {
        match parse_unsigned(run, u64::MAX as nat) {
            Ok(n) => Some((n / 1000) as u64),
            Err(_) => None,
        }
    }
}

/// Parses the idle time that a tool prints in milliseconds into seconds.
pub fn parse_milliseconds(output: &str) -> (r: Option<u64>)
    ensures
        r == seconds_in_output(output@),
{
    let cs = chars_of(output);
    let mut j: usize = cs.len();
    assert(cs@.take(j as int) =~= cs@);
    while j > 0 && !('0' <= cs[j - 1] && cs[j - 1] <= '9')
        invariant
            cs@ == output@,
            j <= cs@.len(),
            strip_trailing_non_digits(cs@) == strip_trailing_non_digits(cs@.take(j as int)),
        decreases j,
    {
        assert(cs@.take(j as int).drop_last() =~= cs@.take(j - 1));
        j -= 1;
    }
    let ghost stripped = cs@.take(j as int);
    assert(strip_trailing_non_digits(stripped) == stripped);
    let mut i: usize = j;
    assert(stripped.skip(j as int) =~= Seq::<char>::empty());
    assert(stripped.take(j as int) =~= stripped);
    while i > 0 && '0' <= cs[i - 1] && cs[i - 1] <= '9'
        invariant
            cs@ == output@,
            i <= j <= cs@.len(),
            stripped == cs@.take(j as int),
            digit_suffix(stripped) == digit_suffix(stripped.take(i as int)) + stripped.skip(
                i as int,
            ),
        decreases i,
    {
        assert(stripped.take(i as int).drop_last() =~= stripped.take(i - 1));
        assert(stripped.take(i as int).last() == cs@[i - 1]);
        assert(stripped.skip(i - 1) =~= seq![cs@[i - 1]] + stripped.skip(i as int));
        assert(digit_suffix(stripped.take(i - 1)).push(cs@[i - 1]) + stripped.skip(i as int)
            =~= digit_suffix(stripped.take(i - 1)) + stripped.skip(i - 1));
        i -= 1;
    }
    assert(digit_suffix(stripped.take(i as int)) =~= Seq::<char>::empty());
    let mut run: Vec<char> = Vec::new();
    let mut k: usize = i;
    while k < j
        invariant
            i <= k <= j <= cs@.len(),
            run@ == cs@.subrange(i as int, k as int),
        decreases j - k,
    {
        run.push(cs[k]);
        assert(cs@.subrange(i as int, k + 1) =~= cs@.subrange(i as int, k as int).push(
            cs@[k as int],
        ));
        k += 1;
    }
    assert(run@ =~= stripped.skip(i as int));
    assert(run@ =~= last_digit_run(output@));
    if run.len() == 0 {
        return None;
    }
    match parse_unsigned_exec(&run, u64::MAX) {
        Ok(n) => Some(n / 1000),
        Err(_) => None,
    }
}

/// The idle sources, in the order in which they are tried.
#[derive(Clone, Copy, PartialEq, Eq, Structural, Debug)]
pub enum IdleProbe {
    /// `xprintidle` (X11).
    Xprintidle,
    /// GNOME Mutter's idle monitor, through `gdbus`.
    GnomeMutter,
    /// KWin's idle time, through `qdbus6`.
    KdeQdbus6,
    /// KWin's idle time, through `qdbus`.
    KdeQdbus,
}

/// What to do after a source answered.
#[derive(Debug)]
pub enum IdleStep {
    /// The user has been idle this many seconds.
    Seconds(u64),
    /// Ask this source next.
    Probe(IdleProbe),
    /// No source could tell; the message says what to install.
    Unavailable(String),
}

/// The first source to ask.
pub fn first_idle_probe() -> (p: IdleProbe)
    ensures
        p == IdleProbe::Xprintidle,
{
    IdleProbe::Xprintidle
}

/// The source tried after `p`, if any.
pub open spec fn next_probe(p: IdleProbe) -> Option<IdleProbe> {
    match p {
        IdleProbe::Xprintidle => Some(IdleProbe::GnomeMutter),
        IdleProbe::GnomeMutter => Some(IdleProbe::KdeQdbus6),
        IdleProbe::KdeQdbus6 => Some(IdleProbe::KdeQdbus),
        IdleProbe::KdeQdbus => None,
    }
}

/// The command line that asks source `p`: the program, then its arguments.
pub open spec fn probe_command(p: IdleProbe) -> Seq<Seq<char>> {
    match p {
        IdleProbe::Xprintidle => seq!["xprintidle"@],
        IdleProbe::GnomeMutter => seq![
            "gdbus"@,
            "call"@,
            "--session"@,
            "--dest"@,
            "org.gnome.Mutter.IdleMonitor"@,
            "--object-path"@,
            "/org/gnome/Mutter/IdleMonitor/Core"@,
            "--method"@,
            "org.gnome.Mutter.IdleMonitor.GetIdletime"@,
        ],
        IdleProbe::KdeQdbus6 => seq![
            "qdbus6"@,
            "org.kde.KWin"@,
            "/org/kde/KIdleTime"@,
            "org.kde.KIdleTime.idleTime"@,
        ],
        IdleProbe::KdeQdbus => seq![
            "qdbus"@,
            "org.kde.KWin"@,
            "/org/kde/KIdleTime"@,
            "org.kde.KIdleTime.idleTime"@,
        ],
    }
}

fn strings_of(parts: &[&str]) -> (v: Vec<String>)
    ensures
        v@.len() == parts@.len(),
        forall|i: int| 0 <= i < parts@.len() ==> (#[trigger] v@[i])@ == parts@[i]@,
{
    let mut v: Vec<String> = Vec::new();
    let mut i: usize = 0;
    while i < parts.len()
        invariant
            i <= parts@.len(),
            v@.len() == i,
            forall|k: int| 0 <= k < i ==> (#[trigger] v@[k])@ == parts@[k]@,
        decreases parts@.len() - i,
    {
        v.push(String::from_str(parts[i]));
        i += 1;
    }
    v
}

/// The command line that asks source `p`: the program, then its arguments.
pub fn idle_probe_command(p: IdleProbe) -> (cmd: Vec<String>)
    ensures
        cmd@.len() == probe_command(p).len(),
        forall|i: int| 0 <= i < cmd@.len() ==> (#[trigger] cmd@[i])@ == probe_command(p)[i],
{
    match p {
        IdleProbe::Xprintidle => strings_of(&["xprintidle"]),
        IdleProbe::GnomeMutter => strings_of(
            &[
                "gdbus",
                "call",
                "--session",
                "--dest",
                "org.gnome.Mutter.IdleMonitor",
                "--object-path",
                "/org/gnome/Mutter/IdleMonitor/Core",
                "--method",
                "org.gnome.Mutter.IdleMonitor.GetIdletime",
            ],
        ),
        IdleProbe::KdeQdbus6 => strings_of(
            &["qdbus6", "org.kde.KWin", "/org/kde/KIdleTime", "org.kde.KIdleTime.idleTime"],
        ),
        IdleProbe::KdeQdbus => strings_of(
            &["qdbus", "org.kde.KWin", "/org/kde/KIdleTime", "org.kde.KIdleTime.idleTime"],
        ),
    }
}

/// Seconds reported by a source's run: nothing when the run failed.
pub open spec fn seconds_of_run(output: Result<String, String>) -> Option<u64> {
    match output {
        Ok(text) => seconds_in_output(text@),
        Err(_) => None,
    }
}

/// Idle seconds from `xprintidle`'s run. Surrounding white space holds no
/// digit, so the output is read as it came, with no trimming first.
pub fn x11_idle_seconds(output: &Result<String, String>) -> (r: Option<u64>)
    ensures
        r == seconds_of_run(*output),
{
    match output {
        Ok(text) => parse_milliseconds(text.as_str()),
        Err(_) => None,
    }
}

/// Idle seconds from the GNOME idle monitor's run.
pub fn gnome_wayland_idle_seconds(output: &Result<String, String>) -> (r: Option<u64>)
    ensures
        r == seconds_of_run(*output),
{
    match output {
        Ok(text) => parse_milliseconds(text.as_str()),
        Err(_) => None,
    }
}

/// Idle seconds from one of KWin's `qdbus` runs.
pub fn kde_wayland_idle_seconds(output: &Result<String, String>) -> (r: Option<u64>)
    ensures
        r == seconds_of_run(*output),
{
    match output {
        Ok(text) => parse_milliseconds(text.as_str()),
        Err(_) => None,
    }
}

pub open spec fn unavailable_message() -> Seq<char> {
    "Idle detection unavailable — install xprintidle or a supported GNOME/KDE D-Bus client"@
}

/// The next step after source `probe` ran and gave `output`: its number if it
/// gave one, otherwise the next source, and after the last one the message
/// that detection is unavailable.
pub fn idle_seconds(probe: IdleProbe, output: &Result<String, String>) -> (r: IdleStep)
    ensures
        match seconds_of_run(*output) {
            Some(s) => r == IdleStep::Seconds(s),
            None => match next_probe(probe) {
                Some(q) => r == IdleStep::Probe(q),
                None => r matches IdleStep::Unavailable(m) && m@ == unavailable_message(),
            },
        },
{
    let seconds = match probe {
        IdleProbe::Xprintidle => x11_idle_seconds(output),
        IdleProbe::GnomeMutter => gnome_wayland_idle_seconds(output),
        IdleProbe::KdeQdbus6 | IdleProbe::KdeQdbus => kde_wayland_idle_seconds(output),
    };
    match seconds {
        Some(s) => IdleStep::Seconds(s),
        None => match probe {
            IdleProbe::Xprintidle => IdleStep::Probe(IdleProbe::GnomeMutter),
            IdleProbe::GnomeMutter => IdleStep::Probe(IdleProbe::KdeQdbus6),
            IdleProbe::KdeQdbus6 => IdleStep::Probe(IdleProbe::KdeQdbus),
            IdleProbe::KdeQdbus => IdleStep::Unavailable(
                String::from_str(
                    "Idle detection unavailable — install xprintidle or a supported GNOME/KDE D-Bus client",
                ),
            ),
        },
    }
}

} // verus!
