//! Local time, as it appears in file names and in pid files.

use vstd::prelude::*;

verus! {

/// A moment of local time, to the millisecond.
pub ghost struct Moment {
    pub year: nat,
    pub month: nat,
    pub day: nat,
    pub hour: nat,
    pub minute: nat,
    pub second: nat,
    pub milli: nat,
}

impl Moment {
    /// A moment that a clock set to the unix era or later can show.
    pub open spec fn valid(self) -> bool {
        &&& self.year >= 1969
        &&& 1 <= self.month <= 12
        &&& 1 <= self.day <= 31
        &&& self.hour < 24
        &&& self.minute < 60
        &&& self.second < 60
        &&& self.milli < 1000
    }

    /// The date as a number that grows with it.
    pub open spec fn date(self) -> nat {
        (self.year * 100 + self.month) * 100 + self.day
    }

    /// The time of day in milliseconds.
    pub open spec fn time(self) -> nat {
        ((self.hour * 60 + self.minute) * 60 + self.second) * 1000 + self.milli
    }

    /// Does this moment come before the other?
    pub open spec fn before(self, other: Moment) -> bool {
        self.date() < other.date() || (self.date() == other.date() && self.time() < other.time())
    }
}

/// Date only: `YYYYmmdd`.
pub const DAY_PATTERN: &'static str = "%Y%m%d";

/// Date and time to the millisecond: `YYYYmmdd-HHMMSS.mmm`.
pub const RUN_PATTERN: &'static str = "%Y%m%d-%H%M%S%.3f";

/// Date and time to the second: `YYYY-mm-ddTHH:MM:SS`.
pub const STARTED_PATTERN: &'static str = "%Y-%m-%dT%H:%M:%S";

/// Two digits.
pub open spec fn two(n: int) -> Seq<char> {
    seq![crate::text::digit(n / 10), crate::text::digit(n % 10)]
}

/// Three digits.
pub open spec fn three(n: int) -> Seq<char> {
    seq![crate::text::digit(n / 100), crate::text::digit(n / 10 % 10), crate::text::digit(n % 10)]
}

/// A year: four digits, or a `+` and all of its digits where these are more.
pub open spec fn year_text(year: nat) -> Seq<char> {
    if year <= 9999 {
        two(year as int / 100) + two(year as int % 100)
    } else {
        "+"@ + crate::text::decimal_spec(year)
    }
}

/// `YYYYmmdd`.
pub open spec fn day_stamp(m: Moment) -> Seq<char> {
    year_text(m.year) + two(m.month as int) + two(m.day as int)
}

/// `YYYYmmdd-HHMMSS.mmm`.
pub open spec fn run_stamp(m: Moment) -> Seq<char> {
    day_stamp(m) + seq!['-'] + two(m.hour as int) + two(m.minute as int) + two(m.second as int)
        + seq!['.'] + three(m.milli as int)
}

/// `YYYY-mm-ddTHH:MM:SS`.
pub open spec fn started_stamp(m: Moment) -> Seq<char> {
    year_text(m.year) + seq!['-'] + two(m.month as int) + seq!['-'] + two(m.day as int) + seq!['T']
        + two(m.hour as int) + seq![':'] + two(m.minute as int) + seq![':'] + two(m.second as int)
}

/// A moment in one of the three forms.
pub open spec fn stamp(pattern: Seq<char>, m: Moment) -> Seq<char> {
    if pattern == DAY_PATTERN@ {
        day_stamp(m)
    } else if pattern == RUN_PATTERN@ {
        run_stamp(m)
    } else {
        started_stamp(m)
    }
}

/// The text shows some moment, in the form that the pattern asks for.
pub open spec fn shows_a_moment(text: Seq<char>, pattern: Seq<char>) -> bool {
    exists|m: Moment| #[trigger] m.valid() && text == stamp(pattern, m)
}

/// `chrono::Local::now`, formatted with `DateTime::format`: some moment, which
/// depends on the clock and on the local time zone, in the form that the
/// pattern asks for (the fields with leading zeros, the milliseconds rounded
/// down). The call panics where the system clock is set to before 1970.
#[verifier::external_body]
fn now_as(pattern: &str) -> (text: String)
    requires
        pattern@ == DAY_PATTERN@ || pattern@ == RUN_PATTERN@ || pattern@ == STARTED_PATTERN@,
    ensures
        shows_a_moment(text@, pattern@),
{
    chrono::Local::now().format(pattern).to_string()
}

/// Today, as it appears in the name of a log file.
pub fn day_now() -> (text: String)
    ensures
        exists|m: Moment| #[trigger] m.valid() && text@ == day_stamp(m),
{
    now_as(DAY_PATTERN)
}

/// The present moment, as it appears in the name of a log file.
pub fn run_now() -> (text: String)
    ensures
        exists|m: Moment| #[trigger] m.valid() && text@ == run_stamp(m),
{
    proof {
        reveal_strlit("%Y%m%d");
        reveal_strlit("%Y%m%d-%H%M%S%.3f");
        assert(DAY_PATTERN@.len() < RUN_PATTERN@.len());
    }
    now_as(RUN_PATTERN)
}

/// The present moment, as it appears in a pid file.
pub fn started_now() -> (text: String)
    ensures
        exists|m: Moment| #[trigger] m.valid() && text@ == started_stamp(m),
{
    proof {
        reveal_strlit("%Y%m%d");
        reveal_strlit("%Y%m%d-%H%M%S%.3f");
        reveal_strlit("%Y-%m-%dT%H:%M:%S");
        assert(STARTED_PATTERN@[2] == '-');
        assert(DAY_PATTERN@[2] == '%');
        assert(RUN_PATTERN@[2] == '%');
    }
    now_as(STARTED_PATTERN)
}

// ---------------------------------------------------------------------------
// Shape
// ---------------------------------------------------------------------------

/// The characters from `lo` up to `hi` are digits.
pub open spec fn digits_in(s: Seq<char>, lo: int, hi: int) -> bool {
    forall|i: int| lo <= i < hi ==> '0' <= #[trigger] s[i] <= '9'
}

/// The shape of `YYYYmmdd`: eight digits; behind a `+`, more of them.
pub open spec fn is_day_stamp(s: Seq<char>) -> bool {
    ||| s.len() == 8 && digits_in(s, 0, 8)
    ||| s.len() >= 10 && s[0] == '+' && digits_in(s, 1, s.len() as int)
}

/// The shape of `YYYYmmdd-HHMMSS.mmm`.
pub open spec fn is_run_stamp(s: Seq<char>) -> bool {
    let day = s.len() - 11;
    &&& day >= 0
    &&& is_day_stamp(s.take(day))
    &&& s[day] == '-'
    &&& digits_in(s, day + 1, day + 7)
    &&& s[day + 7] == '.'
    &&& digits_in(s, day + 8, day + 11)
}

/// The shape of what stands between label and extension in the name of a log.
pub open spec fn is_stamp(s: Seq<char>) -> bool {
    is_day_stamp(s) || is_run_stamp(s)
}

fn are_digits(s: &Vec<char>, lo: usize, hi: usize) -> (yes: bool)
    requires
        lo <= hi <= s.len(),
    ensures
        yes == digits_in(s@, lo as int, hi as int),
{
    let mut i: usize = lo;
    while i < hi
        invariant
            lo <= i <= hi <= s.len(),
            digits_in(s@, lo as int, i as int),
        decreases hi - i,
    {
        let c = s[i];
        if !('0' <= c && c <= '9') {
            return false;
        }
        i += 1;
    }
    true
}

fn has_day_shape(s: &Vec<char>) -> (yes: bool)
    ensures
        yes == is_day_stamp(s@),
{
    if s.len() == 8 {
        are_digits(s, 0, 8)
    } else {
        s.len() >= 10 && s[0] == '+' && are_digits(s, 1, s.len())
    }
}

/// Has the text the shape of a stamp in the name of a log?
pub fn has_stamp_shape(s: &Vec<char>) -> (yes: bool)
    ensures
        yes == is_stamp(s@),
{
    if has_day_shape(s) {
        return true;
    }
    if s.len() < 11 {
        return false;
    }
    let day: usize = s.len() - 11;
    let front = crate::text::part(s, 0, day);
    proof {
        assert(front@ =~= s@.take(day as int));
    }
    has_day_shape(&front) && s[day] == '-' && are_digits(s, day + 1, day + 7) && s[day + 7] == '.'
        && are_digits(s, day + 8, day + 11)
}

proof fn year_digits(year: nat)
    ensures
        year <= 9999 ==> year_text(year).len() == 4 && digits_in(year_text(year), 0, 4),
        year > 9999 ==> year_text(year).len() >= 6 && year_text(year)[0] == '+' && digits_in(
            year_text(year),
            1,
            year_text(year).len() as int,
        ),
{
    if year > 9999 {
        reveal_strlit("+");
        crate::text::decimal_reads_back(year);
        reveal_with_fuel(crate::text::decimal_spec, 6);
        let y = year_text(year);
        assert forall|i: int| 1 <= i < y.len() implies '0' <= #[trigger] y[i] <= '9' by {
            assert(y[i] == crate::text::decimal_spec(year)[i - 1]);
        }
    }
}

/// The texts that name log files have the shape of stamps.
pub proof fn stamps_have_their_shape(m: Moment)
    requires
        m.valid(),
    ensures
        is_day_stamp(day_stamp(m)),
        is_run_stamp(run_stamp(m)),
{
    year_digits(m.year);
    let d = day_stamp(m);
    let y = year_text(m.year);
    assert(d =~= y + (two(m.month as int) + two(m.day as int)));
    assert forall|i: int| (if m.year <= 9999 { 0int } else { 1 }) <= i < d.len() implies '0'
        <= #[trigger] d[i] <= '9' by {
        if i < y.len() {
            assert(d[i] == y[i]);
        }
    }
    let r = run_stamp(m);
    let day = r.len() - 11;
    assert(r.take(day) =~= d);
    assert(day == d.len());
}

// ---------------------------------------------------------------------------
// Order
// ---------------------------------------------------------------------------

/// Where two texts have parts of the same length in front, the first
/// difference is in these, if there is one.
pub proof fn front_decides(a: Seq<char>, b: Seq<char>, x: Seq<char>, y: Seq<char>)
    requires
        a.len() == b.len(),
        crate::order::text_lt(a, b),
    ensures
        crate::order::text_lt(a + x, b + y),
    decreases a.len(),
{
    if a.len() == 0 {
        assert(a =~= b);
    } else {
        assert((a + x)[0] == a[0] && (b + y)[0] == b[0]);
        assert((a + x).drop_first() =~= a.drop_first() + x);
        assert((b + y).drop_first() =~= b.drop_first() + y);
        if a[0] == b[0] {
            assert(a.drop_first() != b.drop_first()) by {
                if a.drop_first() == b.drop_first() {
                    assert(a =~= seq![a[0]] + a.drop_first());
                    assert(b =~= seq![b[0]] + b.drop_first());
                }
            }
            front_decides(a.drop_first(), b.drop_first(), x, y);
            assert((a + x) != (b + y));
        } else {
            assert(a + x != b + y);
        }
    }
}

/// With the same text in front, what follows decides.
pub proof fn rest_decides(p: Seq<char>, x: Seq<char>, y: Seq<char>)
    requires
        crate::order::text_lt(x, y),
    ensures
        crate::order::text_lt(p + x, p + y),
{
    crate::order::text_leq_prefix(p, x, y);
    assert((p + x).skip(p.len() as int) =~= x);
    assert((p + y).skip(p.len() as int) =~= y);
}

proof fn two_grows(m: int, n: int)
    requires
        0 <= m < n < 100,
    ensures
        crate::order::text_lt(two(m), two(n)),
{
    reveal_with_fuel(crate::order::text_leq, 3);
    assert(two(m)[0] < two(n)[0] || (two(m)[0] == two(n)[0] && two(m)[1] < two(n)[1]));
}

#[verifier::spinoff_prover]
proof fn three_grows(m: int, n: int)
    requires
        0 <= m < n < 1000,
    ensures
        crate::order::text_lt(three(m), three(n)),
{
    let a = three(m);
    let b = three(n);
    if m / 100 < n / 100 {
        crate::laws::order::the_first_difference_decides(a, b, 0);
        assert(a[0] < b[0]);
    } else if m / 10 % 10 < n / 10 % 10 {
        assert(m / 100 == n / 100);
        crate::laws::order::the_first_difference_decides(a, b, 1);
        assert(a[1] < b[1]);
    } else {
        assert(m / 100 == n / 100 && m / 10 % 10 == n / 10 % 10);
        assert(m % 10 < n % 10);
        crate::laws::order::the_first_difference_decides(a, b, 2);
        assert(a[2] < b[2]);
    }
}

proof fn year_grows(m: nat, n: nat)
    requires
        m < n <= 9999,
    ensures
        crate::order::text_lt(year_text(m), year_text(n)),
{
    let (a, b) = (two(m as int / 100), two(n as int / 100));
    if m / 100 < n / 100 {
        two_grows(m as int / 100, n as int / 100);
        front_decides(a, b, two(m as int % 100), two(n as int % 100));
    } else {
        two_grows(m as int % 100, n as int % 100);
        rest_decides(a, two(m as int % 100), two(n as int % 100));
    }
}

proof fn days_grow(a: Moment, b: Moment)
    requires
        a.valid(),
        b.valid(),
        a.year <= 9999,
        b.year <= 9999,
        a.date() < b.date(),
    ensures
        crate::order::text_lt(day_stamp(a), day_stamp(b)),
{
    let (am, ad) = (two(a.month as int), two(a.day as int));
    let (bm, bd) = (two(b.month as int), two(b.day as int));
    assert(day_stamp(a) =~= year_text(a.year) + (am + ad));
    assert(day_stamp(b) =~= year_text(b.year) + (bm + bd));
    if a.year < b.year {
        year_grows(a.year, b.year);
        front_decides(year_text(a.year), year_text(b.year), am + ad, bm + bd);
    } else {
        assert(a.year == b.year);
        if a.month < b.month {
            two_grows(a.month as int, b.month as int);
            front_decides(am, bm, ad, bd);
        } else {
            assert(a.month == b.month);
            two_grows(a.day as int, b.day as int);
            rest_decides(am, ad, bd);
        }
        rest_decides(year_text(a.year), am + ad, bm + bd);
    }
}

spec fn clock_text(m: Moment) -> Seq<char> {
    two(m.hour as int) + (two(m.minute as int) + (two(m.second as int) + (seq!['.'] + three(
        m.milli as int,
    ))))
}

proof fn times_grow(a: Moment, b: Moment)
    requires
        a.valid(),
        b.valid(),
        a.time() < b.time(),
    ensures
        crate::order::text_lt(clock_text(a), clock_text(b)),
{
    let (ah, ai, asec) = (two(a.hour as int), two(a.minute as int), two(a.second as int));
    let (bh, bi, bsec) = (two(b.hour as int), two(b.minute as int), two(b.second as int));
    let (am, bm) = (seq!['.'] + three(a.milli as int), seq!['.'] + three(b.milli as int));
    if a.hour < b.hour {
        two_grows(a.hour as int, b.hour as int);
        front_decides(ah, bh, ai + (asec + am), bi + (bsec + bm));
    } else {
        assert(a.hour == b.hour);
        if a.minute < b.minute {
            two_grows(a.minute as int, b.minute as int);
            front_decides(ai, bi, asec + am, bsec + bm);
        } else {
            assert(a.minute == b.minute);
            if a.second < b.second {
                two_grows(a.second as int, b.second as int);
                front_decides(asec, bsec, am, bm);
            } else {
                assert(a.second == b.second);
                three_grows(a.milli as int, b.milli as int);
                rest_decides(seq!['.'], three(a.milli as int), three(b.milli as int));
                rest_decides(asec, am, bm);
            }
            rest_decides(ai, asec + am, bsec + bm);
        }
        rest_decides(ah, ai + (asec + am), bi + (bsec + bm));
    }
}

/// Up to the year 9999 a form has the same length for every moment.
pub proof fn stamps_have_one_length(m: Moment)
    requires
        m.year <= 9999,
    ensures
        day_stamp(m).len() == 8,
        run_stamp(m).len() == 19,
        started_stamp(m).len() == 19,
{
}

/// The texts that name the files of runs sort in time order, and those that
/// name the files of days too, up to the year 9999.
pub proof fn stamps_sort_in_time_order(a: Moment, b: Moment)
    requires
        a.valid(),
        b.valid(),
        a.year <= 9999,
        b.year <= 9999,
        a.before(b),
    ensures
        crate::order::text_lt(run_stamp(a), run_stamp(b)),
        crate::order::text_leq(day_stamp(a), day_stamp(b)),
        a.date() < b.date() ==> crate::order::text_lt(day_stamp(a), day_stamp(b)),
{
    assert(run_stamp(a) =~= day_stamp(a) + (seq!['-'] + clock_text(a)));
    assert(run_stamp(b) =~= day_stamp(b) + (seq!['-'] + clock_text(b)));
    if a.date() < b.date() {
        days_grow(a, b);
        front_decides(
            day_stamp(a),
            day_stamp(b),
            seq!['-'] + clock_text(a),
            seq!['-'] + clock_text(b),
        );
    } else {
        assert(a.year == b.year && a.month == b.month && a.day == b.day);
        crate::order::text_leq_refl(day_stamp(a));
        times_grow(a, b);
        rest_decides(seq!['-'], clock_text(a), clock_text(b));
        rest_decides(day_stamp(a), seq!['-'] + clock_text(a), seq!['-'] + clock_text(b));
    }
}

} // verus!
