//! What a stamp tells, and which texts are stamps.

use vstd::prelude::*;

use crate::clock::Moment;

verus! {

/// The forms in which a moment is asked for.
pub proof fn the_forms_of_a_moment()
    ensures
        crate::clock::DAY_PATTERN@ == "%Y%m%d"@,
        crate::clock::RUN_PATTERN@ == "%Y%m%d-%H%M%S%.3f"@,
        crate::clock::STARTED_PATTERN@ == "%Y-%m-%dT%H:%M:%S"@,
{
}

/// A digit is read back as its value.
proof fn one_digit(d: int)
    requires
        0 <= d < 10,
    ensures
        '0' <= crate::text::digit(d) <= '9',
        crate::text::digit(d) as int - '0' as int == d,
{
}

proof fn digits_behind(s: Seq<char>, d: int)
    requires
        0 <= d < 10,
        crate::text::numeral(s, false) is Some,
    ensures
        crate::text::numeral(s.push(crate::text::digit(d)), false) == Some(
            10 * crate::text::numeral(s, false)->0 + d,
        ),
{
    one_digit(d);
    crate::laws::text::a_digit_more_is_ten_times_as_much(s, crate::text::digit(d));
}

proof fn two_digits_read(n: int)
    requires
        0 <= n < 100,
    ensures
        crate::text::numeral(crate::clock::two(n), false) == Some(n),
        crate::clock::two(n).len() == 2,
{
    let s = seq![crate::text::digit(n / 10)];
    one_digit(n / 10);
    crate::laws::text::a_digit_more_is_ten_times_as_much(s, crate::text::digit(n / 10));
    digits_behind(s, n % 10);
    assert(crate::clock::two(n) =~= s.push(crate::text::digit(n % 10)));
}

proof fn three_digits_read(n: int)
    requires
        0 <= n < 1000,
    ensures
        crate::text::numeral(crate::clock::three(n), false) == Some(n),
        crate::clock::three(n).len() == 3,
{
    let s = seq![crate::text::digit(n / 100)];
    one_digit(n / 100);
    crate::laws::text::a_digit_more_is_ten_times_as_much(s, crate::text::digit(n / 100));
    digits_behind(s, n / 10 % 10);
    let t = s.push(crate::text::digit(n / 10 % 10));
    digits_behind(t, n % 10);
    assert(crate::clock::three(n) =~= t.push(crate::text::digit(n % 10)));
}

proof fn four_digits_read(year: nat)
    requires
        year <= 9999,
    ensures
        crate::text::numeral(crate::clock::year_text(year), false) == Some(year as int),
        crate::clock::year_text(year).len() == 4,
{
    let y = year as int;
    two_digits_read(y / 100);
    let s = crate::clock::two(y / 100);
    digits_behind(s, y % 100 / 10);
    let t = s.push(crate::text::digit(y % 100 / 10));
    digits_behind(t, y % 100 % 10);
    assert(crate::clock::year_text(year) =~= t.push(crate::text::digit(y % 100 % 10)));
}

/// A stamp tells its moment: each field stands at its place, with leading
/// zeros, and is read back as what it is.
#[verifier::spinoff_prover]
pub proof fn a_stamp_tells_its_moment(m: Moment)
    requires
        m.valid(),
        m.year <= 9999,
    ensures
        ({
            let day = crate::clock::day_stamp(m);
            let run = crate::clock::run_stamp(m);
            let started = crate::clock::started_stamp(m);
            &&& day.len() == 8 && run.len() == 19 && started.len() == 19
            &&& crate::text::numeral(day.take(4), false) == Some(m.year as int)
            &&& crate::text::numeral(day.subrange(4, 6), false) == Some(m.month as int)
            &&& crate::text::numeral(day.subrange(6, 8), false) == Some(m.day as int)
            &&& run.take(8) == day && run[8] == '-' && run[15] == '.'
            &&& crate::text::numeral(run.subrange(9, 11), false) == Some(m.hour as int)
            &&& crate::text::numeral(run.subrange(11, 13), false) == Some(m.minute as int)
            &&& crate::text::numeral(run.subrange(13, 15), false) == Some(m.second as int)
            &&& crate::text::numeral(run.subrange(16, 19), false) == Some(m.milli as int)
            &&& crate::text::numeral(started.take(4), false) == Some(m.year as int)
            &&& started[4] == '-' && started[7] == '-' && started[10] == 'T' && started[13] == ':'
                && started[16] == ':'
            &&& crate::text::numeral(started.subrange(5, 7), false) == Some(m.month as int)
            &&& crate::text::numeral(started.subrange(8, 10), false) == Some(m.day as int)
            &&& crate::text::numeral(started.subrange(11, 13), false) == Some(m.hour as int)
            &&& crate::text::numeral(started.subrange(14, 16), false) == Some(m.minute as int)
            &&& crate::text::numeral(started.subrange(17, 19), false) == Some(m.second as int)
        }),
{
    let day = crate::clock::day_stamp(m);
    let run = crate::clock::run_stamp(m);
    let started = crate::clock::started_stamp(m);
    four_digits_read(m.year);
    two_digits_read(m.month as int);
    two_digits_read(m.day as int);
    two_digits_read(m.hour as int);
    two_digits_read(m.minute as int);
    two_digits_read(m.second as int);
    three_digits_read(m.milli as int);
    assert(day.take(4) =~= crate::clock::year_text(m.year));
    assert(day.subrange(4, 6) =~= crate::clock::two(m.month as int));
    assert(day.subrange(6, 8) =~= crate::clock::two(m.day as int));
    assert(run.take(8) =~= day);
    assert(run.subrange(9, 11) =~= crate::clock::two(m.hour as int));
    assert(run.subrange(11, 13) =~= crate::clock::two(m.minute as int));
    assert(run.subrange(13, 15) =~= crate::clock::two(m.second as int));
    assert(run.subrange(16, 19) =~= crate::clock::three(m.milli as int));
    assert(started.take(4) =~= crate::clock::year_text(m.year));
    assert(started.subrange(5, 7) =~= crate::clock::two(m.month as int));
    assert(started.subrange(8, 10) =~= crate::clock::two(m.day as int));
    assert(started.subrange(11, 13) =~= crate::clock::two(m.hour as int));
    assert(started.subrange(14, 16) =~= crate::clock::two(m.minute as int));
    assert(started.subrange(17, 19) =~= crate::clock::two(m.second as int));
}

/// A year of more than four digits stands there in full, behind a `+`.
pub proof fn a_long_year_stands_in_full(m: Moment)
    requires
        m.year > 9999,
    ensures
        ({
            let year = "+"@ + crate::text::decimal_spec(m.year);
            let n = year.len() as int;
            &&& crate::clock::day_stamp(m).take(n) == year
            &&& crate::clock::run_stamp(m).take(n) == year
            &&& crate::clock::started_stamp(m).take(n) == year
        }),
{
    let year = "+"@ + crate::text::decimal_spec(m.year);
    let n = year.len() as int;
    assert(crate::clock::day_stamp(m).take(n) =~= year);
    assert(crate::clock::run_stamp(m).take(n) =~= year);
    assert(crate::clock::started_stamp(m).take(n) =~= year);
}

/// A text is a stamp by its shape: eight digits, or eight digits, a dash, six
/// digits, a dot and three digits, and nothing else. Only behind a `+` may the
/// digits in front be more.
#[verifier::spinoff_prover]
pub proof fn a_stamp_is_one_by_its_shape(s: Seq<char>)
    ensures
        s.len() == 0 || s[0] != '+' ==> (crate::clock::is_stamp(s) <==> {
            ||| s.len() == 8 && forall|i: int| 0 <= i < 8 ==> '0' <= #[trigger] s[i] <= '9'
            ||| s.len() == 19 && s[8] == '-' && s[15] == '.' && forall|i: int|
                0 <= i < 19 && i != 8 && i != 15 ==> '0' <= #[trigger] s[i] <= '9'
        }),
        s.len() > 0 && s[0] == '+' ==> (crate::clock::is_stamp(s) <==> {
            let n = s.len() as int;
            ||| n >= 10 && forall|i: int| 1 <= i < n ==> '0' <= #[trigger] s[i] <= '9'
            ||| n >= 21 && s[n - 11] == '-' && s[n - 4] == '.' && forall|i: int|
                1 <= i < n && i != n - 11 && i != n - 4 ==> '0' <= #[trigger] s[i] <= '9'
        }),
{
    let n = s.len() as int;
    let day = n - 11;
    if day >= 0 {
        let front = s.take(day);
        assert forall|i: int| 0 <= i < day implies #[trigger] front[i] == s[i] by {}
        if crate::clock::is_run_stamp(s) {
            assert forall|i: int| 1 <= i < n && i != day && i != day + 7 implies '0'
                <= #[trigger] s[i] <= '9' by {
                if i < day {
                    assert(front[i] == s[i]);
                }
            }
            if day > 0 {
                assert(front[0] == s[0]);
            }
        }
        if n >= 19 && s[day] == '-' && s[day + 7] == '.' {
            if s[0] == '+' && n >= 21 && (forall|i: int|
                1 <= i < n && i != day && i != day + 7 ==> '0' <= #[trigger] s[i] <= '9') {
                assert(crate::clock::digits_in(front, 1, day));
                assert(crate::clock::is_run_stamp(s));
            }
            if n == 19 && (forall|i: int|
                0 <= i < 19 && i != 8 && i != 15 ==> '0' <= #[trigger] s[i] <= '9') {
                assert(crate::clock::digits_in(front, 0, 8));
                assert(crate::clock::is_run_stamp(s));
            }
        }
    }
}

/// What counts as a moment, and which of two comes first.
pub proof fn moments_are_ordered_by_their_fields(a: Moment, b: Moment)
    requires
        a.valid(),
        b.valid(),
    ensures
        a.year < b.year ==> a.before(b),
        a.year == b.year && a.month < b.month ==> a.before(b),
        a.year == b.year && a.month == b.month && a.day < b.day ==> a.before(b),
        a.date() == b.date() && a.hour < b.hour ==> a.before(b),
        a.date() == b.date() && a.hour == b.hour && a.minute < b.minute ==> a.before(b),
        a.date() == b.date() && a.hour == b.hour && a.minute == b.minute && a.second < b.second
            ==> a.before(b),
        a.date() == b.date() && a.hour == b.hour && a.minute == b.minute && a.second == b.second
            && a.milli < b.milli ==> a.before(b),
        a.before(b) ==> !b.before(a),
{
}

} // verus!
