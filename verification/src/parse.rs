//! Parsing compact duration strings such as `3d2h10m` or `-1y2mon`.
//!
//! The scanner walks the string once, collecting consecutive numeric
//! characters into a value buffer and consecutive alphabetic characters into a
//! unit buffer; a digit that follows a non-empty unit buffer completes the
//! pending value-and-unit pair, and the pair still pending at the end of the
//! input is completed last. A `-` counts only as the very first character,
//! where it sets the sign flag. Parsing never fails: an unrecognized unit
//! token, or a value that is empty, non-decimal or too large for its field,
//! leaves the field at zero.

use vstd::prelude::*;

use crate::CalendarDuration;

verus! {

use vstd::string::StrSliceExecFns;

/// Whether a character outside ASCII counts as alphabetic. Named after the
/// result of `char::is_alphabetic`, which depends on the character alone.
pub uninterp spec fn char_alphabetic_ext(c: char) -> bool;

/// Whether a character outside ASCII counts as numeric. Named after the
/// result of `char::is_numeric`, which depends on the character alone.
pub uninterp spec fn char_numeric_ext(c: char) -> bool;

/// Whether a character is alphabetic: within ASCII exactly the letters.
pub open spec fn char_alphabetic(c: char) -> bool {
    if (c as u32) < 128 {
        (97 <= c as u32 <= 122) || (65 <= c as u32 <= 90)
    } else {
        char_alphabetic_ext(c)
    }
}

/// Whether a character is numeric: within ASCII exactly the decimal digits.
pub open spec fn char_numeric(c: char) -> bool {
    if (c as u32) < 128 {
        48 <= c as u32 <= 57
    } else {
        char_numeric_ext(c)
    }
}

/// Relies on `char::is_alphabetic`: within ASCII it holds exactly for the
/// letters, and beyond ASCII it is a fixed property of the character.
#[verifier::external_body]
fn is_alphabetic_char(c: char) -> (r: bool)
    ensures
        r == char_alphabetic(c),
        (c as u32) >= 128 ==> r == char_alphabetic_ext(c),
{
    c.is_alphabetic()
}

/// Relies on `char::is_numeric`: within ASCII it holds exactly for the decimal
/// digits, and beyond ASCII it is a fixed property of the character.
#[verifier::external_body]
fn is_numeric_char(c: char) -> (r: bool)
    ensures
        r == char_numeric(c),
        (c as u32) >= 128 ==> r == char_numeric_ext(c),
{
    c.is_numeric()
}

/// An ASCII decimal digit.
pub open spec fn is_digit(c: char) -> bool {
    48 <= c as u32 <= 57
}

/// The numeric value of an ASCII decimal digit.
pub open spec fn digit_of(c: char) -> int {
    c as u32 - 48
}

/// Whether every character of the sequence is an ASCII decimal digit.
pub open spec fn all_digits(s: Seq<char>) -> bool {
    forall|i: int| 0 <= i < s.len() ==> is_digit(s[i])
}

/// The value of a sequence of ASCII decimal digits read in base ten.
pub open spec fn digits_val(s: Seq<char>) -> int
    decreases s.len(),
{
    if s.len() == 0 {
        0
    } else {
        digits_val(s.drop_last()) * 10 + digit_of(s.last())
    }
}

/// The value a buffered pair commits to a field with maximum `max`: the digits
/// read in base ten when the buffer is non-empty, all decimal, and in range;
/// zero otherwise.
pub open spec fn pair_val(value: Seq<char>, max: int) -> int {
    if value.len() > 0 && all_digits(value) && digits_val(value) <= max {
        digits_val(value)
    } else {
        0
    }
}

/// Recognizes the unit buffer: 0 for empty, 1..=7 for the unit tokens `y`,
/// `mon`, `w`, `d`, `h`, `m`, `s`, 8 for the proper prefix `mo` of `mon`, and
/// 9 for every other (unrecognized) buffer.
pub open spec fn encode_unit(u: Seq<char>) -> u8 {
    if u.len() == 0 {
        0
    } else if u.len() == 1 {
        if u[0] == 'y' {
            1
        } else if u[0] == 'w' {
            3
        } else if u[0] == 'd' {
            4
        } else if u[0] == 'h' {
            5
        } else if u[0] == 'm' {
            6
        } else if u[0] == 's' {
            7
        } else {
            9
        }
    } else if u.len() == 2 {
        if u[0] == 'm' && u[1] == 'o' {
            8
        } else {
            9
        }
    } else if u.len() == 3 {
        if u[0] == 'm' && u[1] == 'o' && u[2] == 'n' {
            2
        } else {
            9
        }
    } else {
        9
    }
}

/// Commits a buffered value-and-unit pair: the recognized unit's field is set
/// to the buffered value (zero when absent, malformed or out of range), and an
/// unrecognized unit changes nothing.
pub open spec fn committed(dur: CalendarDuration, value: Seq<char>, unit: Seq<char>) -> CalendarDuration {
    let code = encode_unit(unit);
    if code == 1 {
        CalendarDuration { years: pair_val(value, 0xFFFF) as u16, ..dur }
    } else if code == 2 {
        CalendarDuration { months: pair_val(value, 0xFF) as u8, ..dur }
    } else if code == 3 {
        CalendarDuration { weeks: pair_val(value, 0xFFFF_FFFF) as u32, ..dur }
    } else if code == 4 {
        CalendarDuration { days: pair_val(value, 0xFFFF_FFFF) as u32, ..dur }
    } else if code == 5 {
        CalendarDuration { hours: pair_val(value, 0xFFFF_FFFF) as u32, ..dur }
    } else if code == 6 {
        CalendarDuration { minutes: pair_val(value, 0xFFFF_FFFF) as u32, ..dur }
    } else if code == 7 {
        CalendarDuration { seconds: pair_val(value, 0xFFFF_FFFF) as u32, ..dur }
    } else {
        dur
    }
}

/// The scanner's state: the duration built so far and the two buffers.
pub struct ScanState {
    pub dur: CalendarDuration,
    pub value: Seq<char>,
    pub unit: Seq<char>,
}

/// One step of the scanner on character `c`; `first` holds for the very first
/// character of the input, the only place a `-` is significant.
pub open spec fn scan_step(st: ScanState, c: char, first: bool) -> ScanState {
    let st1 = if first && c == '-' {
        ScanState { dur: CalendarDuration { negative: true, ..st.dur }, ..st }
    } else {
        st
    };
    if char_alphabetic(c) {
        ScanState { unit: st1.unit.push(c), ..st1 }
    } else if char_numeric(c) {
        if st1.unit.len() > 0 {
            ScanState {
                dur: committed(st1.dur, st1.value, st1.unit),
                value: seq![c],
                unit: Seq::empty(),
            }
        } else {
            ScanState { value: st1.value.push(c), ..st1 }
        }
    } else {
        st1
    }
}

/// The scanner's state after reading the whole sequence.
pub open spec fn scan_state(s: Seq<char>) -> ScanState
    decreases s.len(),
{
    if s.len() == 0 {
        ScanState { dur: CalendarDuration::zero_spec(), value: Seq::empty(), unit: Seq::empty() }
    } else {
        scan_step(scan_state(s.drop_last()), s.last(), s.len() == 1)
    }
}

/// The duration a character sequence parses to: the scanner's final state with
/// the still-pending pair committed.
pub open spec fn parse_spec(s: Seq<char>) -> CalendarDuration {
    let st = scan_state(s);
    committed(st.dur, st.value, st.unit)
}

/// Reading one more digit multiplies the buffered value by ten and adds it.
proof fn lemma_digits_val_push(v: Seq<char>, c: char)
    ensures
        digits_val(v.push(c)) == digits_val(v) * 10 + digit_of(c),
        all_digits(v.push(c)) == (all_digits(v) && is_digit(c)),
{
    assert(v.push(c).drop_last() =~= v);
    assert(v.push(c).last() == c);
    if all_digits(v) && is_digit(c) {
        assert forall|i: int| 0 <= i < v.push(c).len() implies is_digit(v.push(c)[i]) by {
            if i < v.len() {
                assert(v.push(c)[i] == v[i]);
            }
        }
    }
    if all_digits(v.push(c)) {
        assert forall|i: int| 0 <= i < v.len() implies is_digit(v[i]) by {
            assert(v.push(c)[i] == v[i]);
        }
        assert(is_digit(c));
    }
}

/// Extending the scanned sequence by one character takes one scanner step.
proof fn lemma_scan_snoc(s: Seq<char>, c: char)
    ensures
        scan_state(s.push(c)) == scan_step(scan_state(s), c, s.len() == 0),
{
    assert(s.push(c).drop_last() =~= s);
    assert(s.push(c).last() == c);
}

/// Pushing a character onto the unit buffer, on the buffer's encoding.
fn unit_push(ucode: u8, c: char, Ghost(unit): Ghost<Seq<char>>) -> (r: u8)
    requires
        ucode == encode_unit(unit),
    ensures
        r == encode_unit(unit.push(c)),
{
    proof {
        assert(unit.push(c).len() == unit.len() + 1);
        assert(unit.push(c).last() == c);
        if unit.len() > 0 {
            assert(unit.push(c)[0] == unit[0]);
        }
        if unit.len() > 1 {
            assert(unit.push(c)[1] == unit[1]);
        }
        if unit.len() > 2 {
            assert(unit.push(c)[2] == unit[2]);
        }
    }
    if ucode == 0 {
        if c == 'y' {
            1
        } else if c == 'w' {
            3
        } else if c == 'd' {
            4
        } else if c == 'h' {
            5
        } else if c == 'm' {
            6
        } else if c == 's' {
            7
        } else {
            9
        }
    } else if ucode == 6 && c == 'o' {
        8
    } else if ucode == 8 && c == 'n' {
        2
    } else {
        9
    }
}

/// Commits the buffered pair into the duration. The executable buffer is the
/// accumulator `acc` with its `has` and `bad` flags; the ghost arguments carry
/// the characters the buffers stand for.
fn commit_pair(
    dur: &mut CalendarDuration,
    ucode: u8,
    acc: u64,
    has: bool,
    bad: bool,
    Ghost(value): Ghost<Seq<char>>,
    Ghost(unit): Ghost<Seq<char>>,
)
    requires
        ucode == encode_unit(unit),
        has == (value.len() > 0),
        bad == !(all_digits(value) && digits_val(value) <= 0xFFFF_FFFF),
        !bad ==> acc == digits_val(value),
    ensures
        *final(dur) == committed(*old(dur), value, unit),
{
    let v32: u32 = if has && !bad {
        acc as u32
    } else {
        0
    };
    if ucode == 1 {
        dur.years = if v32 <= 0xFFFF {
            v32 as u16
        } else {
            0
        };
    } else if ucode == 2 {
        dur.months = if v32 <= 0xFF {
            v32 as u8
        } else {
            0
        };
    } else if ucode == 3 {
        dur.weeks = v32;
    } else if ucode == 4 {
        dur.days = v32;
    } else if ucode == 5 {
        dur.hours = v32;
    } else if ucode == 6 {
        dur.minutes = v32;
    } else if ucode == 7 {
        dur.seconds = v32;
    }
}

/// Parses a duration string. Never fails: malformed input degrades to zeroed
/// fields.
pub fn parse(s: &str) -> (r: CalendarDuration)
    ensures
        r == parse_spec(s@),
{
    let n: usize = s.unicode_len();
    let mut dur = CalendarDuration {
        negative: false,
        years: 0,
        months: 0,
        weeks: 0,
        days: 0,
        hours: 0,
        minutes: 0,
        seconds: 0,
    };
    let mut acc: u64 = 0;
    let mut has: bool = false;
    let mut bad: bool = false;
    let mut ucode: u8 = 0;
    let ghost mut value: Seq<char> = Seq::empty();
    let ghost mut unit: Seq<char> = Seq::empty();
    let mut i: usize = 0;
    while i < n
        invariant
            n == s@.len(),
            i <= n,
            scan_state(s@.take(i as int)) == (ScanState { dur, value, unit }),
            has == (value.len() > 0),
            bad == !(all_digits(value) && digits_val(value) <= 0xFFFF_FFFF),
            !bad ==> acc == digits_val(value),
            ucode == encode_unit(unit),
        decreases n - i,
    {
        let c = s.get_char(i);
        proof {
            assert(s@.take(i as int).push(c) =~= s@.take(i as int + 1));
            lemma_scan_snoc(s@.take(i as int), c);
        }
        let al = is_alphabetic_char(c);
        let nu = is_numeric_char(c);
        if i == 0 && c == '-' {
            dur.negative = true;
        }
        if al {
            ucode = unit_push(ucode, c, Ghost(unit));
            proof {
                unit = unit.push(c);
            }
        } else if nu {
            if ucode != 0 {
                commit_pair(&mut dur, ucode, acc, has, bad, Ghost(value), Ghost(unit));
                acc = 0;
                has = false;
                bad = false;
                ucode = 0;
                proof {
                    value = Seq::empty();
                    unit = Seq::empty();
                }
            }
            proof {
                lemma_digits_val_push(value, c);
            }
            let cu: u32 = c as u32;
            if !(48 <= cu && cu <= 57) {
                bad = true;
            } else if !bad {
                acc = acc * 10 + (cu - 48) as u64;
                if acc > 0xFFFF_FFFF {
                    bad = true;
                }
            }
            has = true;
            proof {
                value = value.push(c);
                assert(Seq::<char>::empty().push(c) =~= seq![c]);
            }
        }
        i = i + 1;
    }
    proof {
        assert(s@.take(n as int) =~= s@);
    }
    commit_pair(&mut dur, ucode, acc, has, bad, Ghost(value), Ghost(unit));
    dur
}

impl From<&str> for CalendarDuration {
    /// Parses a duration string; see [`parse`].
    fn from(s: &str) -> (r: Self)
        ensures
            r == parse_spec(s@),
    {
        parse(s)
    }
}

impl vstd::std_specs::convert::FromSpecImpl<&str> for CalendarDuration {
    open spec fn obeys_from_spec() -> bool {
        true
    }

    open spec fn from_spec(s: &str) -> Self {
        parse_spec(s@)
    }
}

/// The seven recognized units.
pub enum UnitKind {
    Years,
    Months,
    Weeks,
    Days,
    Hours,
    Minutes,
    Seconds,
}

/// The token that selects a unit in a duration string.
pub open spec fn unit_token(u: UnitKind) -> Seq<char> {
    match u {
        UnitKind::Years => seq!['y'],
        UnitKind::Months => seq!['m', 'o', 'n'],
        UnitKind::Weeks => seq!['w'],
        UnitKind::Days => seq!['d'],
        UnitKind::Hours => seq!['h'],
        UnitKind::Minutes => seq!['m'],
        UnitKind::Seconds => seq!['s'],
    }
}

/// The largest value a unit's field can hold.
pub open spec fn unit_max(u: UnitKind) -> int {
    match u {
        UnitKind::Years => 0xFFFF,
        UnitKind::Months => 0xFF,
        _ => 0xFFFF_FFFF,
    }
}

/// The duration whose only non-zero field is the given unit, set to `n`.
pub open spec fn only_unit(u: UnitKind, n: int) -> CalendarDuration {
    match u {
        UnitKind::Years => CalendarDuration { years: n as u16, ..CalendarDuration::zero_spec() },
        UnitKind::Months => CalendarDuration { months: n as u8, ..CalendarDuration::zero_spec() },
        UnitKind::Weeks => CalendarDuration { weeks: n as u32, ..CalendarDuration::zero_spec() },
        UnitKind::Days => CalendarDuration { days: n as u32, ..CalendarDuration::zero_spec() },
        UnitKind::Hours => CalendarDuration { hours: n as u32, ..CalendarDuration::zero_spec() },
        UnitKind::Minutes => CalendarDuration {
            minutes: n as u32,
            ..CalendarDuration::zero_spec()
        },
        UnitKind::Seconds => CalendarDuration {
            seconds: n as u32,
            ..CalendarDuration::zero_spec()
        },
    }
}

/// A sequence of digits has a non-negative value.
proof fn lemma_digits_val_nonneg(s: Seq<char>)
    requires
        all_digits(s),
    ensures
        digits_val(s) >= 0,
    decreases s.len(),
{
    if s.len() > 0 {
        let v = s.drop_last();
        assert forall|i: int| 0 <= i < v.len() implies is_digit(v[i]) by {
            assert(v[i] == s[i]);
        }
        lemma_digits_val_nonneg(v);
    }
}

/// Scanning digits alone accumulates them all in the value buffer.
proof fn lemma_scan_digits(ds: Seq<char>)
    requires
        all_digits(ds),
    ensures
        scan_state(ds) == (ScanState {
            dur: CalendarDuration::zero_spec(),
            value: ds,
            unit: Seq::<char>::empty(),
        }),
    decreases ds.len(),
{
    if ds.len() == 0 {
        assert(ds =~= Seq::<char>::empty());
    } else {
        let v = ds.drop_last();
        let c = ds.last();
        assert forall|i: int| 0 <= i < v.len() implies is_digit(v[i]) by {
            assert(v[i] == ds[i]);
        }
        lemma_scan_digits(v);
        assert(v.push(c) =~= ds);
        lemma_scan_snoc(v, c);
    }
}

/// Scanning digits and then letters leaves the digits in the value buffer and
/// the letters in the unit buffer.
proof fn lemma_scan_digits_then_letters(ds: Seq<char>, ls: Seq<char>)
    requires
        ds.len() > 0,
        all_digits(ds),
        forall|i: int| 0 <= i < ls.len() ==> char_alphabetic(#[trigger] ls[i]),
    ensures
        scan_state(ds + ls) == (ScanState {
            dur: CalendarDuration::zero_spec(),
            value: ds,
            unit: ls,
        }),
    decreases ls.len(),
{
    if ls.len() == 0 {
        assert(ds + ls =~= ds);
        assert(ls =~= Seq::<char>::empty());
        lemma_scan_digits(ds);
    } else {
        let lt = ls.drop_last();
        let c = ls.last();
        assert forall|i: int| 0 <= i < lt.len() implies char_alphabetic(#[trigger] lt[i]) by {
            assert(lt[i] == ls[i]);
        }
        lemma_scan_digits_then_letters(ds, lt);
        assert(c == ls[ls.len() - 1]);
        assert(char_alphabetic(c));
        assert((ds + lt).push(c) =~= ds + ls);
        lemma_scan_snoc(ds + lt, c);
        assert((ds + lt).len() != 0);
        assert(lt.push(c) =~= ls);
    }
}

/// Parsing a single value-and-unit pair sets exactly that unit's field, to the
/// value the digits spell, and leaves every other field zero and the sign flag
/// clear.
pub proof fn lemma_parse_single_pair(ds: Seq<char>, u: UnitKind)
    requires
        ds.len() > 0,
        all_digits(ds),
        digits_val(ds) <= unit_max(u),
    ensures
        parse_spec(ds + unit_token(u)) == only_unit(u, digits_val(ds)),
{
    lemma_digits_val_nonneg(ds);
    let ls = unit_token(u);
    assert forall|i: int| 0 <= i < ls.len() implies char_alphabetic(#[trigger] ls[i]) by {
        match u {
            UnitKind::Months => {
                assert(ls[0] == 'm' && ls[1] == 'o' && ls[2] == 'n');
            },
            _ => {
                assert(ls.len() == 1);
            },
        }
    }
    lemma_scan_digits_then_letters(ds, ls);
}

/// The magnitude fields of two durations agree; the sign flag may differ.
pub open spec fn magnitudes_equal(a: CalendarDuration, b: CalendarDuration) -> bool {
    a.years == b.years && a.months == b.months && a.weeks == b.weeks && a.days == b.days
        && a.hours == b.hours && a.minutes == b.minutes && a.seconds == b.seconds
}

/// The scanner on `-` followed by `s` tracks the scanner on `s` alone exactly,
/// save that the sign flag is set.
proof fn lemma_scan_minus(s: Seq<char>)
    ensures
        scan_state(seq!['-'] + s).dur.negative,
        magnitudes_equal(scan_state(seq!['-'] + s).dur, scan_state(s).dur),
        scan_state(seq!['-'] + s).value == scan_state(s).value,
        scan_state(seq!['-'] + s).unit == scan_state(s).unit,
    decreases s.len(),
{
    let init = ScanState {
        dur: CalendarDuration::zero_spec(),
        value: Seq::<char>::empty(),
        unit: Seq::<char>::empty(),
    };
    if s.len() == 0 {
        assert(seq!['-'] + s =~= seq!['-']);
        assert(seq!['-'].drop_last() =~= Seq::<char>::empty());
        assert(seq!['-'].last() == '-');
        assert(scan_state(Seq::<char>::empty()) == init);
        assert(scan_state(seq!['-']) == scan_step(init, '-', true));
        assert(scan_state(s) == init);
    } else {
        let t = s.drop_last();
        let c = s.last();
        lemma_scan_minus(t);
        let a_prev = scan_state(seq!['-'] + t);
        let b_prev = scan_state(t);
        assert((seq!['-'] + s).drop_last() =~= seq!['-'] + t);
        assert((seq!['-'] + s).last() == c);
        assert((seq!['-'] + s).len() == s.len() + 1);
        assert(scan_state(seq!['-'] + s) == scan_step(a_prev, c, false));
        assert(scan_state(s) == scan_step(b_prev, c, s.len() == 1));
        let b1 = if s.len() == 1 && c == '-' {
            ScanState { dur: CalendarDuration { negative: true, ..b_prev.dur }, ..b_prev }
        } else {
            b_prev
        };
        assert(magnitudes_equal(a_prev.dur, b1.dur));
        if char_alphabetic(c) {
        } else if char_numeric(c) {
            if a_prev.unit.len() > 0 {
                assert(magnitudes_equal(
                    committed(a_prev.dur, a_prev.value, a_prev.unit),
                    committed(b1.dur, b1.value, b1.unit),
                ));
            }
        }
    }
}

/// A leading `-` sets the sign flag; the magnitude fields parse exactly as
/// they would without the sign character.
pub proof fn lemma_parse_leading_minus(s: Seq<char>)
    ensures
        parse_spec(seq!['-'] + s).negative,
        magnitudes_equal(parse_spec(seq!['-'] + s), parse_spec(s)),
{
    lemma_scan_minus(s);
}

} // verus!
