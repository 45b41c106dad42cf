//! The departure-board text line.
//!
//! A departure is a service label and the whole minutes remaining until it
//! leaves (the surrounding application derives the minutes from the wall
//! clock and the timetable).  Each known departure becomes `|SS MMm`: the
//! label padded or cut to two characters, then the minutes — `" 0m"` when
//! the service is due, with a leading space while the count has one digit.
//! Labels are measured and cut character-wise.

use vstd::prelude::*;
use vstd::string::{StrSliceExecFns, StringExecFns};

verus! {

/// The decimal digit character for `d`.
pub open spec fn digit_char(d: int) -> char {
    ((48 + d) as u8) as char
}

/// The decimal numeral of `n`, for positive `n`; empty for `n <= 0`.
pub open spec fn dec_str(n: int) -> Seq<char>
    decreases n,
{
    if n <= 0 {
        Seq::empty()
    } else {
        dec_str(n / 10).push(digit_char(n % 10))
    }
}

/// How a departure `n` minutes away is written: due services as `" 0m"`,
/// single-digit counts with a leading space, larger counts bare.
pub open spec fn minutes_text(n: int) -> Seq<char> {
    if n <= 0 {
        seq![' ', '0', 'm']
    } else if n <= 9 {
        seq![' '] + dec_str(n) + seq!['m']
    } else {
        dec_str(n) + seq!['m']
    }
}

/// How a service label is written: short labels get a trailing space,
/// longer ones are cut to their first two characters.
pub open spec fn service_text(label: Seq<char>) -> Seq<char> {
    if label.len() < 2 {
        label + seq![' ']
    } else {
        label.take(2)
    }
}

/// One departure's contribution to the line; unknown slots contribute
/// nothing.
pub open spec fn entry_text(e: Option<(Seq<char>, int)>) -> Seq<char> {
    match e {
        None => Seq::empty(),
        Some(p) => seq!['|'] + service_text(p.0) + seq![' '] + minutes_text(p.1),
    }
}

/// The whole line: each slot's text, in order.
pub open spec fn departures_text(deps: Seq<Option<(Seq<char>, int)>>) -> Seq<char>
    decreases deps.len(),
{
    if deps.len() == 0 {
        Seq::empty()
    } else {
        departures_text(deps.drop_last()) + entry_text(deps.last())
    }
}

/// The slots as mathematical values: label view and minutes.
pub open spec fn deps_view(deps: Seq<Option<(String, i64)>>) -> Seq<Option<(Seq<char>, int)>> {
    deps.map_values(
        |e: Option<(String, i64)>|
            match e {
                None => None,
                Some(p) => Some((p.0@, p.1 as int)),
            },
    )
}

/// Relies on String::push: appends exactly the one character.
#[verifier::external_body]
fn push_char(s: &mut String, c: char)
    ensures
        final(s)@ == old(s)@.push(c),
{
    s.push(c);
}

/// The decimal numeral of `n` as a string.
fn decimal_string(n: u64) -> (s: String)
    requires
        n >= 1,
    ensures
        s@ == dec_str(n as int),
    decreases n,
{
    if n >= 10 {
        let mut s = decimal_string(n / 10);
        let d = (n % 10) as u8;
        push_char(&mut s, (48 + d) as char);
        s
    } else {
        let mut s = String::new();
        let d = n as u8;
        push_char(&mut s, (48 + d) as char);
        proof {
            assert(dec_str(n as int / 10) == Seq::<char>::empty());
            assert(s@ =~= dec_str(n as int));
        }
        s
    }
}

/// The minutes part of one entry.
fn format_minutes(n: i64) -> (s: String)
    ensures
        s@ == minutes_text(n as int),
{
    if n <= 0 {
        let mut s = String::new();
        push_char(&mut s, ' ');
        push_char(&mut s, '0');
        push_char(&mut s, 'm');
        proof {
            assert(s@ =~= minutes_text(n as int));
        }
        s
    } else if n <= 9 {
        let mut s = String::new();
        push_char(&mut s, ' ');
        let digits = decimal_string(n as u64);
        s.append(digits.as_str());
        push_char(&mut s, 'm');
        proof {
            assert(s@ =~= minutes_text(n as int));
        }
        s
    } else {
        let mut s = decimal_string(n as u64);
        push_char(&mut s, 'm');
        proof {
            assert(s@ =~= minutes_text(n as int));
        }
        s
    }
}

/// Render the whole departure line for up to three (or more) slots: each
/// known departure as `|SS MMm`, unknown slots skipped.
pub fn format_departure_times(departures: &Vec<Option<(String, i64)>>) -> (s: String)
    ensures
        s@ == departures_text(deps_view(departures@)),
{
    let ghost view = deps_view(departures@);
    let mut s = String::new();
    let mut i: usize = 0;
    proof {
        assert(view.take(0) =~= Seq::<Option<(Seq<char>, int)>>::empty());
    }
    while i < departures.len()
        invariant
            i <= departures.len(),
            view == deps_view(departures@),
            view.len() == departures@.len(),
            s@ == departures_text(view.take(i as int)),
        decreases departures.len() - i,
    {
        let ghost s_pre = s@;
        match &departures[i] {
            Some(entry) => {
                push_char(&mut s, '|');
                let label: &String = &entry.0;
                if label.as_str().unicode_len() < 2 {
                    s.append(label.as_str());
                    push_char(&mut s, ' ');
                } else {
                    s.append(label.as_str().substring_char(0, 2));
                    proof {
                        assert(label@.subrange(0, 2) =~= service_text(label@));
                    }
                }
                push_char(&mut s, ' ');
                let minutes = format_minutes(entry.1);
                s.append(minutes.as_str());
                proof {
                    assert(s@ =~= s_pre + entry_text(view[i as int]));
                }
            },
            None => {
                proof {
                    assert(s@ =~= s_pre + entry_text(view[i as int]));
                }
            },
        }
        proof {
            assert(view.take(i as int + 1).drop_last() =~= view.take(i as int));
            assert(view.take(i as int + 1).last() == view[i as int]);
            assert(s@ =~= departures_text(view.take(i as int + 1)));
        }
        i += 1;
    }
    proof {
        assert(view.take(departures@.len() as int) =~= view);
    }
    s
}

} // verus!
