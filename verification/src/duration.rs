//! Duration labels for play sessions.
//!
//! A session with no finish timestamp is labelled `"PRESENT"`.  A finished
//! session whose finish is not earlier than its start is labelled
//! `"{H}hr, {M}min, {S}sec"` with hours, minutes and seconds obtained by
//! integer division and modulo of the elapsed seconds.  Everything else
//! (a finish before the start, or an unparsable timestamp) is labelled
//! `"Invalid duration"`; a malformed record is a display concern only and
//! never an error.

use vstd::prelude::*;
use vstd::string::StringExecFns;

use crate::time::epoch_seconds_of;
use crate::time::parse_timestamp;

verus! {

/// The decimal digit character for a value below ten.
pub open spec fn digit_char(d: nat) -> char {
    if d == 0 {
        '0'
    } else if d == 1 {
        '1'
    } else if d == 2 {
        '2'
    } else if d == 3 {
        '3'
    } else if d == 4 {
        '4'
    } else if d == 5 {
        '5'
    } else if d == 6 {
        '6'
    } else if d == 7 {
        '7'
    } else if d == 8 {
        '8'
    } else {
        '9'
    }
}

/// The decimal rendering of a natural number, without leading zeros
/// (except for the number zero itself).
pub open spec fn dec_str(n: nat) -> Seq<char>
    decreases n,
{
    if n < 10 {
        seq![digit_char(n)]
    } else {
        dec_str(n / 10) + seq![digit_char(n % 10)]
    }
}

/// The `"{H}hr, {M}min, {S}sec"` rendering of a number of seconds.
pub open spec fn duration_text(total: nat) -> Seq<char> {
    dec_str(total / 3600) + "hr, "@ + dec_str((total % 3600) / 60) + "min, "@ + dec_str(total % 60)
        + "sec"@
}

/// The duration label of a session with the given start timestamp and
/// optional finish timestamp.
pub open spec fn duration_label_spec(started: Seq<char>, finished: Option<Seq<char>>) -> Seq<char> {
    match finished {
        None => if epoch_seconds_of(started) is Some {
            "PRESENT"@
        } else {
            "Invalid duration"@
        },
        Some(f) => match (epoch_seconds_of(started), epoch_seconds_of(f)) {
            (Some(s), Some(e)) => if e >= s {
                duration_text((e - s) as nat)
            } else {
                "Invalid duration"@
            },
            _ => "Invalid duration"@,
        },
    }
}

/// The view of an optional finish timestamp.
pub open spec fn opt_str_view(finished: Option<&str>) -> Option<Seq<char>> {
    match finished {
        Some(f) => Some(f@),
        None => None,
    }
}

fn digit_literal(d: u64) -> (r: &'static str)
    requires
        d < 10,
    ensures
        r@ == seq![digit_char(d as nat)],
{
    proof {
        reveal_strlit("0");
        reveal_strlit("1");
        reveal_strlit("2");
        reveal_strlit("3");
        reveal_strlit("4");
        reveal_strlit("5");
        reveal_strlit("6");
        reveal_strlit("7");
        reveal_strlit("8");
        reveal_strlit("9");
    }
    if d == 0 {
        proof {
            assert("0"@ =~= seq![digit_char(d as nat)]);
        }
        "0"
    } else if d == 1 {
        proof {
            assert("1"@ =~= seq![digit_char(d as nat)]);
        }
        "1"
    } else if d == 2 {
        proof {
            assert("2"@ =~= seq![digit_char(d as nat)]);
        }
        "2"
    } else if d == 3 {
        proof {
            assert("3"@ =~= seq![digit_char(d as nat)]);
        }
        "3"
    } else if d == 4 {
        proof {
            assert("4"@ =~= seq![digit_char(d as nat)]);
        }
        "4"
    } else if d == 5 {
        proof {
            assert("5"@ =~= seq![digit_char(d as nat)]);
        }
        "5"
    } else if d == 6 {
        proof {
            assert("6"@ =~= seq![digit_char(d as nat)]);
        }
        "6"
    } else if d == 7 {
        proof {
            assert("7"@ =~= seq![digit_char(d as nat)]);
        }
        "7"
    } else if d == 8 {
        proof {
            assert("8"@ =~= seq![digit_char(d as nat)]);
        }
        "8"
    } else {
        proof {
            assert("9"@ =~= seq![digit_char(d as nat)]);
        }
        "9"
    }
}

pub(crate) fn u64_to_string(n: u64) -> (r: String)
    ensures
        r@ == dec_str(n as nat),
    decreases n,
{
    if n < 10 {
        let r = digit_literal(n).to_owned();
        proof {
            assert(r@ =~= dec_str(n as nat));
        }
        r
    } else {
        let mut r = u64_to_string(n / 10);
        r.append(digit_literal(n % 10));
        proof {
            assert(r@ =~= dec_str(n as nat));
        }
        r
    }
}

/// Builds the `"{H}hr, {M}min, {S}sec"` label for an elapsed number of seconds.
fn render_duration(total: u64) -> (r: String)
    ensures
        r@ == duration_text(total as nat),
{
    let mut out = u64_to_string(total / 3600);
    out.append("hr, ");
    out.append(u64_to_string((total % 3600) / 60).as_str());
    out.append("min, ");
    out.append(u64_to_string(total % 60).as_str());
    out.append("sec");
    proof {
        assert(out@ =~= duration_text(total as nat));
    }
    out
}

/// The duration label of a session, computed from its timestamps at read
/// time.  Total: every pair of strings gets a label, and a malformed
/// record is reported through the label rather than through an error.
pub fn duration_label(started_at: &str, finished_at: Option<&str>) -> (r: String)
    ensures
        r@ == duration_label_spec(started_at@, opt_str_view(finished_at)),
{
    match finished_at {
        None => {
            match parse_timestamp(started_at) {
                Some(_) => "PRESENT".to_owned(),
                None => "Invalid duration".to_owned(),
            }
        },
        Some(f) => {
            match (parse_timestamp(started_at), parse_timestamp(f)) {
                (Some(s), Some(e)) => {
                    if e >= s {
                        let wide: i128 = (e as i128) - (s as i128);
                        proof {
                            assert(0 <= wide <= u64::MAX);
                        }
                        let total: u64 = wide as u64;
                        render_duration(total)
                    } else {
                        "Invalid duration".to_owned()
                    }
                },
                _ => "Invalid duration".to_owned(),
            }
        },
    }
}

} // verus!
