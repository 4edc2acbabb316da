//! Rendering a [`CalendarDuration`] as an English phrase.
//!
//! Each non-zero magnitude field yields a segment `"{value} {unit-name}"`,
//! pluralized with a trailing `s` when the value exceeds one, in the fixed
//! order years, months, weeks, days, hours, minutes, seconds. One or two
//! segments are joined with `" and "`; three or more are joined with `", "`
//! except for a final `" and "`. The sign flag is not rendered.

use vstd::prelude::*;

use crate::CalendarDuration;
use crate::parse::UnitKind;

verus! {

use vstd::string::StringExecFns;

/// The decimal digit character for a value below ten.
pub open spec fn digit_char(n: int) -> char {
    if n == 0 {
        '0'
    } else if n == 1 {
        '1'
    } else if n == 2 {
        '2'
    } else if n == 3 {
        '3'
    } else if n == 4 {
        '4'
    } else if n == 5 {
        '5'
    } else if n == 6 {
        '6'
    } else if n == 7 {
        '7'
    } else if n == 8 {
        '8'
    } else {
        '9'
    }
}

/// The decimal digits of a non-negative number, most significant first.
pub open spec fn dec_digits(n: int) -> Seq<char>
    decreases n,
{
    if n < 10 {
        seq![digit_char(n)]
    } else {
        dec_digits(n / 10).push(digit_char(n % 10))
    }
}

/// One phrase segment: the value, a space, the unit name, and a plural `s`
/// when the value exceeds one.
pub open spec fn segment(n: int, name: Seq<char>) -> Seq<char> {
    dec_digits(n) + seq![' '] + name + (if n > 1 {
        seq!['s']
    } else {
        Seq::empty()
    })
}

/// No segment for a zero value, one segment otherwise.
pub open spec fn maybe_segment(n: int, name: Seq<char>) -> Seq<Seq<char>> {
    if n == 0 {
        Seq::empty()
    } else {
        seq![segment(n, name)]
    }
}

/// The segments of a duration's phrase, in field order.
pub open spec fn segments(d: CalendarDuration) -> Seq<Seq<char>> {
    maybe_segment(d.years as int, seq!['y', 'e', 'a', 'r']) + maybe_segment(
        d.months as int,
        seq!['m', 'o', 'n', 't', 'h'],
    ) + maybe_segment(d.weeks as int, seq!['w', 'e', 'e', 'k']) + maybe_segment(
        d.days as int,
        seq!['d', 'a', 'y'],
    ) + maybe_segment(d.hours as int, seq!['h', 'o', 'u', 'r']) + maybe_segment(
        d.minutes as int,
        seq!['m', 'i', 'n', 'u', 't', 'e'],
    ) + maybe_segment(d.seconds as int, seq!['s', 'e', 'c', 'o', 'n', 'd'])
}

/// The pieces joined with the separator between neighbours.
pub open spec fn join_sep(ss: Seq<Seq<char>>, sep: Seq<char>) -> Seq<char>
    decreases ss.len(),
{
    if ss.len() == 0 {
        Seq::empty()
    } else if ss.len() == 1 {
        ss[0]
    } else {
        join_sep(ss.drop_last(), sep) + sep + ss.last()
    }
}

/// The full phrase of a duration: up to two segments joined with `" and "`,
/// three or more joined with `", "` save for a final `" and "`.
pub open spec fn phrase_spec(d: CalendarDuration) -> Seq<char> {
    let ss = segments(d);
    if ss.len() >= 3 {
        join_sep(ss.take(ss.len() - 1), seq![',', ' ']) + seq![' ', 'a', 'n', 'd', ' ']
            + ss.last()
    } else {
        join_sep(ss, seq![' ', 'a', 'n', 'd', ' '])
    }
}

/// The views of a vector of strings.
pub open spec fn views_of(v: Seq<String>) -> Seq<Seq<char>> {
    v.map_values(|s: String| s@)
}

/// The English name of a unit.
pub open spec fn unit_name(u: UnitKind) -> Seq<char> {
    match u {
        UnitKind::Years => seq!['y', 'e', 'a', 'r'],
        UnitKind::Months => seq!['m', 'o', 'n', 't', 'h'],
        UnitKind::Weeks => seq!['w', 'e', 'e', 'k'],
        UnitKind::Days => seq!['d', 'a', 'y'],
        UnitKind::Hours => seq!['h', 'o', 'u', 'r'],
        UnitKind::Minutes => seq!['m', 'i', 'n', 'u', 't', 'e'],
        UnitKind::Seconds => seq!['s', 'e', 'c', 'o', 'n', 'd'],
    }
}

/// The magnitude a duration holds for a unit.
pub open spec fn field_value(d: CalendarDuration, u: UnitKind) -> int {
    match u {
        UnitKind::Years => d.years as int,
        UnitKind::Months => d.months as int,
        UnitKind::Weeks => d.weeks as int,
        UnitKind::Days => d.days as int,
        UnitKind::Hours => d.hours as int,
        UnitKind::Minutes => d.minutes as int,
        UnitKind::Seconds => d.seconds as int,
    }
}

/// How many magnitude fields of a duration are non-zero.
pub open spec fn count_nonzero(d: CalendarDuration) -> int {
    (if d.years != 0 {
        1int
    } else {
        0int
    }) + (if d.months != 0 {
        1int
    } else {
        0int
    }) + (if d.weeks != 0 {
        1int
    } else {
        0int
    }) + (if d.days != 0 {
        1int
    } else {
        0int
    }) + (if d.hours != 0 {
        1int
    } else {
        0int
    }) + (if d.minutes != 0 {
        1int
    } else {
        0int
    }) + (if d.seconds != 0 {
        1int
    } else {
        0int
    })
}

/// A duration with exactly one non-zero field formats as that single segment,
/// `"{n} {unit}"` with a plural `s` past one, and no connective word.
pub proof fn lemma_phrase_single_field(d: CalendarDuration, u: UnitKind)
    requires
        field_value(d, u) != 0,
        forall|v: UnitKind| v != u ==> #[trigger] field_value(d, v) == 0,
    ensures
        phrase_spec(d) == segment(field_value(d, u), unit_name(u)),
{
    assert(field_value(d, UnitKind::Years) == 0 || u == UnitKind::Years);
    assert(field_value(d, UnitKind::Months) == 0 || u == UnitKind::Months);
    assert(field_value(d, UnitKind::Weeks) == 0 || u == UnitKind::Weeks);
    assert(field_value(d, UnitKind::Days) == 0 || u == UnitKind::Days);
    assert(field_value(d, UnitKind::Hours) == 0 || u == UnitKind::Hours);
    assert(field_value(d, UnitKind::Minutes) == 0 || u == UnitKind::Minutes);
    assert(field_value(d, UnitKind::Seconds) == 0 || u == UnitKind::Seconds);
    assert(segments(d) =~= seq![segment(field_value(d, u), unit_name(u))]);
}

/// A duration with three or more non-zero fields formats as all its segments:
/// those before the last joined with `", "`, and `" and "` before the last.
pub proof fn lemma_phrase_many_fields(d: CalendarDuration)
    requires
        count_nonzero(d) >= 3,
    ensures
        segments(d).len() == count_nonzero(d),
        phrase_spec(d) == join_sep(segments(d).take(segments(d).len() - 1), seq![',', ' '])
            + seq![' ', 'a', 'n', 'd', ' '] + segments(d).last(),
{
}

/// The string slice holding one decimal digit.
fn digit_str(n: u8) -> (r: &'static str)
    requires
        n < 10,
    ensures
        r@ =~= seq![digit_char(n as int)],
{
    proof {
        reveal_strlit("0");
        reveal_strlit("1");
        reveal_strlit("2");
        reveal_strlit("3");
        reveal_strlit("4");
        reveal_strlit("5");
        reveal_strlit("6");
        reveal_strlit("7");
        reveal_strlit("8");
        reveal_strlit("9");
    }
    if n == 0 {
        "0"
    } else if n == 1 {
        "1"
    } else if n == 2 {
        "2"
    } else if n == 3 {
        "3"
    } else if n == 4 {
        "4"
    } else if n == 5 {
        "5"
    } else if n == 6 {
        "6"
    } else if n == 7 {
        "7"
    } else if n == 8 {
        "8"
    } else {
        "9"
    }
}

/// Renders a number in decimal.
fn u32_to_string(n: u32) -> (r: String)
    ensures
        r@ == dec_digits(n as int),
    decreases n,
{
    if n < 10 {
        digit_str(n as u8).to_owned()
    } else {
        let mut s = u32_to_string(n / 10);
        s.append(digit_str((n % 10) as u8));
        proof {
            assert(dec_digits(n as int / 10) + seq![digit_char(n as int % 10)] =~= dec_digits(
                n as int / 10,
            ).push(digit_char(n as int % 10)));
        }
        s
    }
}

/// Appends the phrase segment for one unit: nothing for a zero value, the
/// value and the unit name (pluralized past one) otherwise.
pub fn format_unit_segment(segments: &mut Vec<String>, value: u32, unit: &str)
    ensures
        views_of(final(segments)@) == views_of(old(segments)@) + maybe_segment(
            value as int,
            unit@,
        ),
{
    if value > 0 {
        let mut s = u32_to_string(value);
        s.append(" ");
        s.append(unit);
        if value > 1 {
            s.append("s");
        }
        proof {
            reveal_strlit(" ");
            reveal_strlit("s");
            assert(" "@ =~= seq![' ']);
            assert("s"@ =~= seq!['s']);
            assert(s@ =~= segment(value as int, unit@));
        }
        segments.push(s);
        proof {
            assert(views_of(final(segments)@) =~= views_of(old(segments)@) + maybe_segment(
                value as int,
                unit@,
            ));
        }
    } else {
        proof {
            assert(views_of(final(segments)@) =~= views_of(old(segments)@) + maybe_segment(
                value as int,
                unit@,
            ));
        }
    }
}

impl CalendarDuration {
    /// Renders the duration as an English phrase, such as
    /// `"1 hour, 20 minutes and 41 seconds"`. The sign is not rendered; a zero
    /// duration yields the empty string.
    pub fn to_phrase(&self) -> (r: String)
        ensures
            r@ == phrase_spec(*self),
    {
        let mut segs: Vec<String> = Vec::new();
        format_unit_segment(&mut segs, self.years as u32, "year");
        format_unit_segment(&mut segs, self.months as u32, "month");
        format_unit_segment(&mut segs, self.weeks, "week");
        format_unit_segment(&mut segs, self.days, "day");
        format_unit_segment(&mut segs, self.hours, "hour");
        format_unit_segment(&mut segs, self.minutes, "minute");
        format_unit_segment(&mut segs, self.seconds, "second");
        proof {
            reveal_strlit("year");
            reveal_strlit("month");
            reveal_strlit("week");
            reveal_strlit("day");
            reveal_strlit("hour");
            reveal_strlit("minute");
            reveal_strlit("second");
            assert("year"@ =~= seq!['y', 'e', 'a', 'r']);
            assert("month"@ =~= seq!['m', 'o', 'n', 't', 'h']);
            assert("week"@ =~= seq!['w', 'e', 'e', 'k']);
            assert("day"@ =~= seq!['d', 'a', 'y']);
            assert("hour"@ =~= seq!['h', 'o', 'u', 'r']);
            assert("minute"@ =~= seq!['m', 'i', 'n', 'u', 't', 'e']);
            assert("second"@ =~= seq!['s', 'e', 'c', 'o', 'n', 'd']);
            assert(views_of(segs@) =~= segments(*self));
        }
        let ghost vs: Seq<Seq<char>> = views_of(segs@);
        let len: usize = segs.len();
        proof {
            reveal_strlit(", ");
            reveal_strlit(" and ");
            assert(", "@ =~= seq![',', ' ']);
            assert(" and "@ =~= seq![' ', 'a', 'n', 'd', ' ']);
        }
        if len >= 3 {
            let mut out: String = segs[0].clone();
            let mut i: usize = 1;
            proof {
                assert(vs.take(1) =~= seq![vs[0]]);
                assert(out@ == join_sep(vs.take(1), seq![',', ' ']));
            }
            while i < len - 1
                invariant
                    3 <= len == vs.len() == segs@.len(),
                    1 <= i <= len - 1,
                    vs == views_of(segs@),
                    out@ == join_sep(vs.take(i as int), seq![',', ' ']),
                decreases len - i,
            {
                proof {
                    reveal_strlit(", ");
                    assert(", "@ =~= seq![',', ' ']);
                    assert(vs[i as int] == segs@[i as int]@);
                }
                out.append(", ");
                out.append(segs[i].as_str());
                proof {
                    assert(vs.take(i as int + 1).drop_last() =~= vs.take(i as int));
                    assert(vs.take(i as int + 1).last() == vs[i as int]);
                }
                i = i + 1;
            }
            proof {
                reveal_strlit(" and ");
                assert(" and "@ =~= seq![' ', 'a', 'n', 'd', ' ']);
                assert(vs[len as int - 1] == segs@[len as int - 1]@);
            }
            out.append(" and ");
            out.append(segs[len - 1].as_str());
            proof {
                assert(vs.take(len as int - 1) =~= vs.take(vs.len() - 1));
                assert(vs[len as int - 1] == vs.last());
            }
            out
        } else if len == 2 {
            proof {
                assert(vs[0] == segs@[0]@);
                assert(vs[1] == segs@[1]@);
            }
            let mut out: String = segs[0].clone();
            out.append(" and ");
            out.append(segs[1].as_str());
            proof {
                let sep: Seq<char> = seq![' ', 'a', 'n', 'd', ' '];
                assert(vs.drop_last() =~= seq![vs[0]]);
                assert(vs.last() == vs[1]);
                assert(join_sep(seq![vs[0]], sep) == vs[0]);
                assert(join_sep(vs, sep) == join_sep(vs.drop_last(), sep) + sep + vs.last());
                assert(out@ == join_sep(vs, sep));
            }
            out
        } else if len == 1 {
            proof {
                assert(vs[0] == segs@[0]@);
            }
            let out: String = segs[0].clone();
            out
        } else {
            proof {
                assert(vs.len() == 0);
            }
            String::new()
        }
    }
}

} // verus!
