//! What terminal output looks like: times, durations, title bars and section
//! separators.
//!
//! Colour is used only where standard output is a terminal, so that piped
//! output stays free of control sequences.

use vstd::prelude::*;
use vstd::string::*;

use owo_colors::OwoColorize;
use std::io::IsTerminal;

use crate::observation::{duration_nanos, since_epoch};
use crate::text::{decimal, flat, i64_text, signed_decimal, Parts};

verus! {

// ---------- the terminal and the clock ---------------------------------------------

/// Whether standard output is a terminal, from `IsTerminal::is_terminal`.
/// Nothing is claimed of the answer.
#[verifier::external_body]
fn stdout_is_terminal() -> (r: bool) {
    std::io::stdout().is_terminal()
}

/// A text in bold, from `owo_colors`' `bold`.
///
/// Claimed of it: the text stands between the sequence that turns bold on and
/// the one that resets everything.
#[verifier::external_body]
fn bold(s: &str) -> (r: String)
    ensures
        r@ == flat(seq!["\x1b[1m"@, s@, "\x1b[0m"@]),
{
    s.bold().to_string()
}

/// A text in cyan, from `owo_colors`' `cyan`.
///
/// Claimed of it: the text stands between the sequence for cyan and the one
/// for the usual colour.
#[verifier::external_body]
fn cyan(s: &str) -> (r: String)
    ensures
        r@ == flat(seq!["\x1b[36m"@, s@, "\x1b[39m"@]),
{
    s.cyan().to_string()
}

/// A text in yellow, from `owo_colors`' `yellow`.
///
/// Claimed of it: the text stands between the sequence for yellow and the one
/// for the usual colour.
#[verifier::external_body]
fn yellow(s: &str) -> (r: String)
    ensures
        r@ == flat(seq!["\x1b[33m"@, s@, "\x1b[39m"@]),
{
    s.yellow().to_string()
}

/// Whether output is coloured: exactly where standard output is a terminal,
/// which is left to the machine.
pub fn is_color_enabled() -> bool {
    stdout_is_terminal()
}

/// A distance from the unix epoch as a signed number of nanoseconds: its low
/// 64 bits, and zero for a clock before the epoch.
pub fn unix_ns_of(since_epoch: Option<u128>) -> (r: i64)
    ensures
        r == match since_epoch {
            Some(n) => n as i64,
            None => 0i64,
        },
{
    match since_epoch {
        Some(n) => #[verifier::truncate] (n as i64),
        None => 0,
    }
}

/// The wall clock in unix nanoseconds. Which time is read is left to the
/// machine.
pub fn now_unix_ns() -> i64 {
    match since_epoch() {
        Some(d) => unix_ns_of(Some(duration_nanos(&d))),
        None => unix_ns_of(None),
    }
}

// ---------- durations --------------------------------------------------------------

/// A duration in its largest unit, and the next one unless that is zero.
pub open spec fn duration_text(secs: int) -> Seq<char> {
    if secs < 60 {
        flat(seq![decimal(secs as nat), "s"@])
    } else if secs < 3_600 {
        two_units(secs / 60, "m"@, secs % 60, "s"@)
    } else if secs < 86_400 {
        two_units(secs / 3_600, "h"@, (secs % 3_600) / 60, "m"@)
    } else {
        two_units(secs / 86_400, "d"@, (secs % 86_400) / 3_600, "h"@)
    }
}

/// A number of one unit, and of a smaller one unless it is zero.
pub open spec fn two_units(a: int, a_unit: Seq<char>, b: int, b_unit: Seq<char>) -> Seq<char> {
    if b == 0 {
        flat(seq![decimal(a as nat), a_unit])
    } else {
        flat(seq![decimal(a as nat), a_unit, decimal(b as nat), b_unit])
    }
}

fn write_units(a: u64, a_unit: &str, b: u64, b_unit: &str) -> (r: String)
    ensures
        r@ == two_units(a as int, a_unit@, b as int, b_unit@),
{
    let mut t = Parts::new();
    t.add_number(a);
    t.add(a_unit);
    if b != 0 {
        t.add_number(b);
        t.add(b_unit);
    }
    t.finish()
}

/// A duration in seconds as its largest one or two units that are not zero:
/// `45s`, `2m5s`, `1h`, `1h2m`, `3d4h`.
pub fn fmt_duration(secs: u64) -> (r: String)
    ensures
        r@ == duration_text(secs as int),
{
    if secs < 60 {
        let mut t = Parts::new();
        t.add_number(secs);
        t.add("s");
        t.finish()
    } else if secs < 3_600 {
        write_units(secs / 60, "m", secs % 60, "s")
    } else if secs < 86_400 {
        write_units(secs / 3_600, "h", (secs % 3_600) / 60, "m")
    } else {
        write_units(secs / 86_400, "d", (secs % 86_400) / 3_600, "h")
    }
}

// ---------- times ------------------------------------------------------------------

/// Whole seconds in a number of nanoseconds, toward zero.
pub open spec fn whole_secs(ns: int) -> int {
    if ns >= 0 {
        ns / 1_000_000_000
    } else {
        -((-ns) / 1_000_000_000)
    }
}

/// A time in seconds since the epoch, with its age as of `now` unless it lies
/// ahead.
pub open spec fn unix_text(ns: i64, now: i64) -> Seq<char> {
    if ns <= now {
        flat(
            seq![
                "unix "@,
                signed_decimal(whole_secs(ns as int)),
                " ("@,
                duration_text(whole_secs(now - ns)),
                " ago)"@,
            ],
        )
    } else {
        flat(seq!["unix "@, signed_decimal(whole_secs(ns as int))])
    }
}

/// Whole seconds in a number of nanoseconds.
fn secs_of(ns: i128) -> (r: i128)
    requires
        -0x1_0000_0000_0000_0000 <= ns <= 0x1_0000_0000_0000_0000,
    ensures
        r == whole_secs(ns as int),
        -0x1_0000_0000 * 16 <= r <= 0x1_0000_0000 * 16,
{
    if ns >= 0 {
        ns / 1_000_000_000
    } else {
        -((-ns) / 1_000_000_000)
    }
}

/// A unix time with its age as of `now`, or without one for a time after it.
pub fn fmt_unix_ns_at(ns: i64, now: i64) -> (r: String)
    ensures
        r@ == unix_text(ns, now),
{
    let secs: i64 = secs_of(ns as i128) as i64;
    let mut t = Parts::new();
    t.add("unix ");
    t.add(i64_text(secs).as_str());
    if ns <= now {
        let age: i128 = secs_of(now as i128 - ns as i128);
        t.add(" (");
        t.add(fmt_duration(age as u64).as_str());
        t.add(" ago)");
    }
    t.finish()
}

/// A unix time with its age now: `unix {secs} ({age} ago)`, or `unix {secs}`
/// for a time in the future. Which time it is now is left to the machine.
pub fn fmt_unix_ns(ns: i64) -> (r: String)
    ensures
        exists|now: i64| r@ == #[trigger] unix_text(ns, now),
{
    let now: i64 = now_unix_ns();
    fmt_unix_ns_at(ns, now)
}

// ---------- bars -------------------------------------------------------------------

/// The text of a title bar.
pub open spec fn title_text(label: Seq<char>, time: Seq<char>) -> Seq<char> {
    flat(seq!["── "@, label, " · "@, time, " ──"@])
}

/// The text of a section separator.
pub open spec fn section_text(label: Seq<char>) -> Seq<char> {
    flat(seq!["── "@, label, " ──"@])
}

/// A text in bold cyan.
pub open spec fn in_bold_cyan(s: Seq<char>) -> Seq<char> {
    flat(seq!["\x1b[36m"@, flat(seq!["\x1b[1m"@, s, "\x1b[0m"@]), "\x1b[39m"@])
}

/// A text in bold yellow.
pub open spec fn in_bold_yellow(s: Seq<char>) -> Seq<char> {
    flat(seq!["\x1b[33m"@, flat(seq!["\x1b[1m"@, s, "\x1b[0m"@]), "\x1b[39m"@])
}

/// A title bar for a time, coloured or not.
pub fn title_bar_at(label: &str, ns: i64, now: i64, color: bool) -> (r: String)
    ensures
        r@ == if color {
            in_bold_cyan(title_text(label@, unix_text(ns, now)))
        } else {
            title_text(label@, unix_text(ns, now))
        },
{
    let mut t = Parts::new();
    t.add("── ");
    t.add(label);
    t.add(" · ");
    t.add(fmt_unix_ns_at(ns, now).as_str());
    t.add(" ──");
    let text = t.finish();
    if color {
        cyan(bold(text.as_str()).as_str())
    } else {
        text
    }
}

/// A title bar with the current time, coloured on a terminal. The time and
/// whether there is a terminal are left to the machine.
pub fn title_bar(label: &str) -> (r: String)
    ensures
        exists|ns: i64, now: i64|
            r@ == title_text(label@, #[trigger] unix_text(ns, now)) || r@ == in_bold_cyan(
                title_text(label@, unix_text(ns, now)),
            ),
{
    let ns: i64 = now_unix_ns();
    let now: i64 = now_unix_ns();
    title_bar_at(label, ns, now, is_color_enabled())
}

/// A section separator, coloured or not.
pub fn section_as(label: &str, color: bool) -> (r: String)
    ensures
        r@ == if color {
            in_bold_yellow(section_text(label@))
        } else {
            section_text(label@)
        },
{
    let mut t = Parts::new();
    t.add("── ");
    t.add(label);
    t.add(" ──");
    let text = t.finish();
    if color {
        yellow(bold(text.as_str()).as_str())
    } else {
        text
    }
}

/// A section separator, coloured on a terminal. Whether there is one is left
/// to the machine.
pub fn section(label: &str) -> (r: String)
    ensures
        r@ == section_text(label@) || r@ == in_bold_yellow(section_text(label@)),
{
    section_as(label, is_color_enabled())
}

} // verus!
