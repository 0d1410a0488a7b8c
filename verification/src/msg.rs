//! Event-log message strings, specified exactly.
//!
//! Every entry the engine appends to its log is one of the messages below.
//! Each has a specification-level form over `Seq<char>` and an executable
//! builder proved to produce exactly that form, including the decimal
//! rendering of counter values.

use vstd::prelude::*;
use vstd::string::StringExecFns;

verus! {

// ---- decimal numerals ----

/// The digit character for a value below ten.
pub open spec fn digit_char(d: nat) -> char {
    if d == 0 {
        '0'
    } else if d == 1 {
        '1'
    } else if d == 2 {
        '2'
    } else if d == 3 {
        '3'
    } else if d == 4 {
        '4'
    } else if d == 5 {
        '5'
    } else if d == 6 {
        '6'
    } else if d == 7 {
        '7'
    } else if d == 8 {
        '8'
    } else {
        '9'
    }
}

/// The decimal numeral of a natural number, most significant digit first.
pub open spec fn dec_nat(n: nat) -> Seq<char>
    decreases n,
{
    if n < 10 {
        seq![digit_char(n)]
    } else {
        dec_nat(n / 10).push(digit_char(n % 10))
    }
}

/// The decimal numeral of a signed value: a minus sign before the
/// magnitude for negative values.
pub open spec fn dec_i32(v: i32) -> Seq<char> {
    if v < 0 {
        seq!['-'] + dec_nat((-(v as int)) as nat)
    } else {
        dec_nat(v as nat)
    }
}

/// The one-character string of a digit below ten.
fn digit_str(d: u32) -> (s: &'static str)
    requires
        d < 10,
    ensures
        s@ == seq![digit_char(d as nat)],
{
    proof {
        reveal_strlit("0");
        reveal_strlit("1");
        reveal_strlit("2");
        reveal_strlit("3");
        reveal_strlit("4");
        reveal_strlit("5");
        reveal_strlit("6");
        reveal_strlit("7");
        reveal_strlit("8");
        reveal_strlit("9");
    }
    match d {
        0 => "0",
        1 => "1",
        2 => "2",
        3 => "3",
        4 => "4",
        5 => "5",
        6 => "6",
        7 => "7",
        8 => "8",
        _ => "9",
    }
}

/// Appends the decimal numeral of `n` to `out`.
fn append_dec(out: &mut String, n: u32)
    ensures
        final(out)@ == old(out)@ + dec_nat(n as nat),
    decreases n,
{
    if n >= 10 {
        append_dec(out, n / 10);
        let ds = digit_str(n % 10);
        out.append(ds);
        proof {
            assert(old(out)@ + dec_nat(n as nat) =~= (old(out)@ + dec_nat((n / 10) as nat))
                + seq![digit_char((n % 10) as nat)]);
        }
    } else {
        let ds = digit_str(n);
        out.append(ds);
    }
}

/// Renders a signed value as its decimal numeral.
pub fn i32_dec(v: i32) -> (s: String)
    ensures
        s@ == dec_i32(v),
{
    let mut out = String::new();
    if v < 0 {
        out.append("-");
        let mag: u32 = if v == i32::MIN {
            2147483648
        } else {
            (-v) as u32
        };
        proof {
            reveal_strlit("-");
            assert(mag as nat == (-(v as int)) as nat);
        }
        append_dec(&mut out, mag);
        proof {
            assert(out@ =~= seq!['-'] + dec_nat((-(v as int)) as nat));
        }
    } else {
        append_dec(&mut out, v as u32);
        proof {
            assert(out@ =~= dec_nat(v as nat));
        }
    }
    out
}

// ---- the engine's log messages ----

pub open spec fn msg_started(ch: Seq<char>, sc: Option<Seq<char>>) -> Seq<char> {
    "Adventure started - Chapter: "@ + ch + " - Scene: "@ + (match sc {
        Some(s) => s,
        None => "None"@,
    })
}

pub open spec fn msg_chapter_changed(id: Seq<char>) -> Seq<char> {
    "Chapter changed to: "@ + id
}

pub open spec fn msg_no_chapters() -> Seq<char> {
    "No more chapters available"@
}

pub open spec fn msg_scene_changed(id: Seq<char>) -> Seq<char> {
    "Scene changed to: "@ + id
}

pub open spec fn msg_no_scenes() -> Seq<char> {
    "No more scenes available"@
}

pub open spec fn msg_decision_made(id: Seq<char>) -> Seq<char> {
    "Decision made: "@ + id
}

pub open spec fn msg_applying_consequence(id: Seq<char>) -> Seq<char> {
    "Applying consequence: "@ + id
}

pub open spec fn msg_item_added(id: Seq<char>) -> Seq<char> {
    "Item "@ + id + " added"@
}

pub open spec fn msg_status_added(id: Seq<char>) -> Seq<char> {
    "Status "@ + id + " added"@
}

pub open spec fn msg_tag_added(id: Seq<char>) -> Seq<char> {
    "Tag "@ + id + " added"@
}

pub open spec fn msg_item_removed(id: Seq<char>) -> Seq<char> {
    "Item "@ + id + " removed"@
}

pub open spec fn msg_status_removed(id: Seq<char>) -> Seq<char> {
    "Status "@ + id + " removed"@
}

pub open spec fn msg_counter_changed(name: Seq<char>, value: i32) -> Seq<char> {
    "Counter "@ + name + " changed to: "@ + dec_i32(value)
}

// ---- executable builders ----

/// A message of the form `prefix` then `id`.
pub fn prefix_msg(prefix: &str, id: &str) -> (m: String)
    ensures
        m@ == prefix@ + id@,
{
    let mut m = String::from_str(prefix);
    m.append(id);
    m
}

/// A message of the form `prefix` then `id` then `suffix`.
pub fn wrap_msg(prefix: &str, id: &str, suffix: &str) -> (m: String)
    ensures
        m@ == prefix@ + id@ + suffix@,
{
    let mut m = String::from_str(prefix);
    m.append(id);
    m.append(suffix);
    proof {
        assert(m@ =~= prefix@ + id@ + suffix@);
    }
    m
}

/// The message logged when a counter takes a new value.
pub fn counter_msg(name: &str, value: i32) -> (m: String)
    ensures
        m@ == msg_counter_changed(name@, value),
{
    let mut m = String::from_str("Counter ");
    m.append(name);
    m.append(" changed to: ");
    let num = i32_dec(value);
    m.append(num.as_str());
    proof {
        assert(m@ =~= msg_counter_changed(name@, value));
    }
    m
}

/// The message logged when the adventure starts.
pub fn started_msg(ch: &str, sc: &Option<String>) -> (m: String)
    ensures
        m@ == msg_started(ch@, sc.deep_view()),
{
    let mut m = String::from_str("Adventure started - Chapter: ");
    m.append(ch);
    m.append(" - Scene: ");
    match sc {
        Some(s) => m.append(s.as_str()),
        None => m.append("None"),
    }
    proof {
        assert(m@ =~= msg_started(ch@, sc.deep_view()));
    }
    m
}

} // verus!
