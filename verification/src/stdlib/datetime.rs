//! Dates and times: the current time and formatting timestamps as calendar dates.
use vstd::prelude::*;
use crate::ast::Type;
use crate::text::{string_push, chars_of};
use crate::symbol::{FnSignature, SigSpec, sigs_match, sig_is, param_views, lemma_sigs_match_push, param, sig};

verus! {

/// Whether `y` is a leap year of the Gregorian calendar.
pub open spec fn is_leap(y: int) -> bool {
    y % 4 == 0 && (y % 100 != 0 || y % 400 == 0)
}

/// Number of leap years among the years `1..=n`.
pub open spec fn leaps_through(n: int) -> int {
    n / 4 - n / 100 + n / 400
}

/// Days from 1970-01-01 to the first day of year `y`.
pub open spec fn days_before_year(y: int) -> int {
    365 * (y - 1970) + leaps_through(y - 1) - leaps_through(1969)
}

pub open spec fn days_in_year(y: int) -> int {
    if is_leap(y) { 366 } else { 365 }
}

pub open spec fn days_in_month(y: int, m: int) -> int {
    if m == 2 {
        if is_leap(y) { 29 } else { 28 }
    } else if m == 4 || m == 6 || m == 9 || m == 11 {
        30
    } else {
        31
    }
}

/// Days from the first of January of year `y` to the first day of month `m`.
pub open spec fn days_before_month(y: int, m: int) -> int
    decreases m,
{
    if m <= 1 { 0 } else { days_before_month(y, m - 1) + days_in_month(y, m - 1) }
}

/// The day number, counted from 1970-01-01, of the date `y`-`m`-`d`.
pub open spec fn civil_days(y: int, m: int, d: int) -> int {
    days_before_year(y) + days_before_month(y, m) + d - 1
}

/// `(y, m, d)` is a valid date, not before 1970.
pub open spec fn valid_date(y: int, m: int, d: int) -> bool {
    y >= 1970 && 1 <= m <= 12 && 1 <= d <= days_in_month(y, m)
}

proof fn lemma_div_step(y: int, k: int)
    requires
        k > 0,
    ensures
        y / k - (y - 1) / k == if y % k == 0 { 1int } else { 0int },
{
    let q = y / k;
    let r = y % k;
    vstd::arithmetic::div_mod::lemma_fundamental_div_mod(y, k);
    assert(y == k * q + r);
    assert(k * q == q * k) by (nonlinear_arith);
    if r > 0 {
        vstd::arithmetic::div_mod::lemma_fundamental_div_mod_converse(y - 1, k, q, r - 1);
    } else {
        assert(y - 1 == (q - 1) * k + (k - 1)) by (nonlinear_arith)
            requires
                y == q * k,
        ;
        vstd::arithmetic::div_mod::lemma_fundamental_div_mod_converse(y - 1, k, q - 1, k - 1);
    }
}

proof fn lemma_year_step(y: int)
    requires
        y >= 1970,
    ensures
        days_before_year(y + 1) == days_before_year(y) + days_in_year(y),
{
    lemma_div_step(y, 4);
    lemma_div_step(y, 100);
    lemma_div_step(y, 400);
}

proof fn lemma_era_step(y: int, k: int)
    requires
        y >= 1970,
        k >= 0,
    ensures
        days_before_year(y + 400 * k) == days_before_year(y) + 146097 * k,
{
    let n = y - 1;
    assert((n + 400 * k) / 4 == n / 4 + 100 * k);
    assert((n + 400 * k) / 100 == n / 100 + 4 * k);
    assert((n + 400 * k) / 400 == n / 400 + k);
}

proof fn lemma_months_sum(y: int)
    ensures
        days_before_month(y, 13) == days_in_year(y),
{
    reveal_with_fuel(days_before_month, 13);
}

/// The date of day number `days` counted from 1970-01-01.
pub fn days_to_date(days: u64) -> (date: (u64, u32, u32))
    ensures
        valid_date(date.0 as int, date.1 as int, date.2 as int),
        civil_days(date.0 as int, date.1 as int, date.2 as int) == days,
{
    let eras = days / 146097;
    let mut rem = days % 146097;
    let mut y: u64 = 1970 + 400 * eras;
    proof {
        lemma_era_step(1970, eras as int);
    }
    // whole years
    let ghost y0 = y as int;
    loop
        invariant
            y0 <= y <= y0 + 400,
            y0 == 1970 + 400 * eras,
            eras == days / 146097,
            days_before_year(y as int) + rem == days,
            rem < 146097,
            365 * (y - y0) + rem <= days % 146097,
        ensures
            y >= 1970,
            days_before_year(y as int) + rem == days,
            rem < days_in_year(y as int),
        decreases rem,
    {
        let leap = y % 4 == 0 && (y % 100 != 0 || y % 400 == 0);
        let len: u64 = if leap { 366 } else { 365 };
        if rem < len {
            break;
        }
        proof {
            lemma_year_step(y as int);
        }
        rem = rem - len;
        y = y + 1;
    }
    // whole months
    let mut m: u32 = 1;
    loop
        invariant
            1 <= m <= 12,
            y >= 1970,
            days_before_year(y as int) + days_before_month(y as int, m as int) + rem == days,
            rem < days_in_year(y as int) - days_before_month(y as int, m as int),
        ensures
            1 <= m <= 12,
            y >= 1970,
            days_before_year(y as int) + days_before_month(y as int, m as int) + rem == days,
            rem < days_in_month(y as int, m as int),
        decreases 12 - m,
    {
        let leap = y % 4 == 0 && (y % 100 != 0 || y % 400 == 0);
        let len: u64 = if m == 2 {
            if leap { 29 } else { 28 }
        } else if m == 4 || m == 6 || m == 9 || m == 11 {
            30
        } else {
            31
        };
        if rem < len {
            break;
        }
        proof {
            lemma_months_sum(y as int);
            if m == 12 {
                assert(days_before_month(y as int, 13) == days_before_month(y as int, 12) + days_in_month(y as int, 12));
            }
        }
        rem = rem - len;
        m = m + 1;
    }
    (y, m, (rem + 1) as u32)
}


proof fn lemma_years_increase(y1: int, y2: int)
    requires
        1970 <= y1 <= y2,
    ensures
        days_before_year(y1) <= days_before_year(y2),
        y1 < y2 ==> days_before_year(y1 + 1) <= days_before_year(y2),
    decreases y2 - y1,
{
    if y1 < y2 {
        lemma_year_step(y2 - 1);
        lemma_years_increase(y1, y2 - 1);
    }
}

proof fn lemma_months_increase(y: int, m1: int, m2: int)
    requires
        1 <= m1 <= m2,
    ensures
        days_before_month(y, m1) <= days_before_month(y, m2),
        m1 < m2 ==> days_before_month(y, m1 + 1) <= days_before_month(y, m2),
    decreases m2 - m1,
{
    if m1 < m2 {
        lemma_months_increase(y, m1, m2 - 1);
    }
}

proof fn lemma_date_within_year(y: int, m: int, d: int)
    requires
        valid_date(y, m, d),
    ensures
        days_before_year(y) <= civil_days(y, m, d) < days_before_year(y + 1),
{
    lemma_year_step(y);
    lemma_months_increase(y, m, 13);
    lemma_months_sum(y);
    assert(days_before_month(y, 1) == 0);
    lemma_months_increase(y, 1, m);
}

/// The calendar numbers days one to one: two valid dates with the same day
/// number are the same date.
pub proof fn lemma_civil_days_injective(y1: int, m1: int, d1: int, y2: int, m2: int, d2: int)
    requires
        valid_date(y1, m1, d1),
        valid_date(y2, m2, d2),
        civil_days(y1, m1, d1) == civil_days(y2, m2, d2),
    ensures
        y1 == y2 && m1 == m2 && d1 == d2,
{
    lemma_date_within_year(y1, m1, d1);
    lemma_date_within_year(y2, m2, d2);
    if y1 < y2 {
        lemma_years_increase(y1, y2);
    } else if y2 < y1 {
        lemma_years_increase(y2, y1);
    }
    assert(y1 == y2);
    if m1 < m2 {
        lemma_months_increase(y1, m1, m2);
    } else if m2 < m1 {
        lemma_months_increase(y1, m2, m1);
    }
}

/// The date of day number `days` (counted from 1970-01-01).
pub open spec fn date_of(days: int) -> (int, int, int) {
    choose|y: int, m: int, d: int| valid_date(y, m, d) && civil_days(y, m, d) == days
}

/// The decimal digits of `n`, most significant first.
pub open spec fn decimal(n: nat) -> Seq<char>
    decreases n,
{
    if n < 10 {
        seq![(48 + n) as char]
    } else {
        decimal(n / 10).push((48 + n % 10) as char)
    }
}

/// The decimal digits of `n` padded with zeros to at least `w` characters:
/// what `format!("{:0w$}", n)` prints.
pub open spec fn padded(n: nat, w: nat) -> Seq<char> {
    let digits = decimal(n);
    if digits.len() < w { Seq::new((w - digits.len()) as nat, |_i: int| '0') + digits } else { digits }
}

/// The calendar and clock fields a timestamp is shown with.
pub struct TimeFields {
    pub year: nat,
    pub month: nat,
    pub day: nat,
    pub hour: nat,
    pub minute: nat,
    pub second: nat,
}

/// The fields of a timestamp in seconds since 1970-01-01 UTC.
pub open spec fn fields_of(secs: u64) -> TimeFields {
    let (y, m, d) = date_of(secs as int / 86400);
    let t = secs as int % 86400;
    TimeFields {
        year: y as nat,
        month: m as nat,
        day: d as nat,
        hour: (t / 3600) as nat,
        minute: ((t % 3600) / 60) as nat,
        second: (t % 60) as nat,
    }
}

/// `fmt` with `%Y`, `%m`, `%d`, `%H`, `%M`, `%S` replaced by the fields (the
/// year to at least four digits, the others to two) and `%%` by `%`; a `%`
/// before any other character, or at the end, is kept.
pub open spec fn expand(fmt: Seq<char>, f: TimeFields) -> Seq<char>
    decreases fmt.len(),
{
    if fmt.len() == 0 {
        seq![]
    } else if fmt[0] != '%' {
        seq![fmt[0]] + expand(fmt.drop_first(), f)
    } else if fmt.len() == 1 {
        seq!['%']
    } else {
        let c = fmt[1];
        let piece = if c == 'Y' {
            padded(f.year, 4)
        } else if c == 'm' {
            padded(f.month, 2)
        } else if c == 'd' {
            padded(f.day, 2)
        } else if c == 'H' {
            padded(f.hour, 2)
        } else if c == 'M' {
            padded(f.minute, 2)
        } else if c == 'S' {
            padded(f.second, 2)
        } else if c == '%' {
            seq!['%']
        } else {
            seq!['%', c]
        };
        piece + expand(fmt.skip(2), f)
    }
}

/// Append the decimal digits of `n`, padded with zeros to at least `w`.
fn push_padded(out: &mut String, n: u64, w: usize)
    ensures
        final(out)@ == old(out)@ + padded(n as nat, w as nat),
{
    let mut rev: Vec<char> = Vec::new();
    let first = ((48 + n % 10) as u8) as char;
    rev.push(first);
    let mut cur: u64 = n / 10;
    proof {
        assert(rev@.reverse() =~= seq![first]);
        if n >= 10 {
            assert(decimal(n as nat) == decimal((n / 10) as nat).push(first));
            assert(decimal((n / 10) as nat).push(first) =~= decimal((n / 10) as nat) + seq![first]);
        } else {
            assert(decimal(n as nat) =~= seq![first]);
            assert(Seq::<char>::empty() + seq![first] =~= seq![first]);
        }
    }
    while cur > 0
        invariant
            rev.len() >= 1,
            decimal(n as nat) == (if cur == 0 { Seq::<char>::empty() } else { decimal(cur as nat) }) + rev@.reverse(),
        decreases cur,
    {
        let c = ((48 + cur % 10) as u8) as char;
        proof {
            assert(rev@.push(c).reverse() =~= seq![c] + rev@.reverse());
            if cur >= 10 {
                assert(decimal(cur as nat) == decimal((cur / 10) as nat).push(c));
                assert(decimal((cur / 10) as nat).push(c) + rev@.reverse() =~= decimal((cur / 10) as nat) + rev@.push(c).reverse());
            } else {
                assert(decimal(cur as nat) =~= seq![c]);
                assert(seq![c] + rev@.reverse() =~= Seq::<char>::empty() + rev@.push(c).reverse());
            }
        }
        rev.push(c);
        cur = cur / 10;
    }
    proof {
        assert(Seq::<char>::empty() + rev@.reverse() =~= rev@.reverse());
    }
    let len = rev.len();
    if len < w {
        let mut k: usize = len;
        while k < w
            invariant
                len <= k <= w,
                out@ == old(out)@ + Seq::new((k - len) as nat, |_i: int| '0'),
            decreases w - k,
        {
            string_push(out, '0');
            proof {
                assert(out@ =~= old(out)@ + Seq::new((k + 1 - len) as nat, |_i: int| '0'));
            }
            k = k + 1;
        }
    }
    let ghost mid = out@;
    let mut k: usize = rev.len();
    while k > 0
        invariant
            k <= rev.len(),
            out@ == mid + rev@.reverse().take((rev.len() - k) as int),
        decreases k,
    {
        k = k - 1;
        string_push(out, rev[k]);
        proof {
            let r = rev@.reverse();
            assert(r[(rev.len() - k - 1) as int] == rev@[k as int]);
            assert(r.take((rev.len() - k) as int) =~= r.take((rev.len() - k - 1) as int).push(rev@[k as int]));
        }
    }
    proof {
        assert(rev@.reverse().take(rev.len() as int) =~= rev@.reverse());
        if len >= w {
            assert(mid == old(out)@);
        }
        assert(out@ =~= old(out)@ + padded(n as nat, w as nat));
    }
}

/// Append the decimal digits of `n`.
pub fn push_decimal(out: &mut String, n: u64)
    ensures
        final(out)@ == old(out)@ + decimal(n as nat),
{
    push_padded(out, n, 0);
}

/// `format(timestamp, fmt)` for a timestamp of `secs` whole seconds since
/// 1970-01-01 UTC.
pub fn format_timestamp(secs: u64, fmt: &str) -> (out: String)
    ensures
        out@ == expand(fmt@, fields_of(secs)),
{
    let days = secs / 86400;
    let time_secs = secs % 86400;
    let hours = time_secs / 3600;
    let minutes = (time_secs % 3600) / 60;
    let seconds = time_secs % 60;
    let (year, month, day) = days_to_date(days);
    let ghost f = fields_of(secs);
    proof {
        let t = date_of(days as int);
        assert(valid_date(year as int, month as int, day as int) && civil_days(year as int, month as int, day as int)
            == days as int);
        assert(valid_date(t.0, t.1, t.2) && civil_days(t.0, t.1, t.2) == days as int);
        lemma_civil_days_injective(year as int, month as int, day as int, t.0, t.1, t.2);
        assert(f.year == year && f.month == month && f.day == day);
        assert(f.hour == hours && f.minute == minutes && f.second == seconds);
    }
    let chars = chars_of(fmt);
    let n = chars.len();
    let mut out = String::new();
    let mut k: usize = 0;
    proof {
        assert(chars@.skip(0) =~= chars@);
        assert(Seq::<char>::empty() + expand(chars@, f) =~= expand(chars@, f));
    }
    while k < n
        invariant
            n == chars@.len(),
            k <= n,
            chars@ == fmt@,
            f == fields_of(secs),
            f.year == year && f.month == month && f.day == day,
            f.hour == hours && f.minute == minutes && f.second == seconds,
            out@ + expand(chars@.skip(k as int), f) == expand(chars@, f),
        decreases n - k,
    {
        let c = chars[k];
        let ghost rest = chars@.skip(k as int);
        let ghost before = out@;
        proof {
            assert(rest[0] == c);
            assert(rest.drop_first() =~= chars@.skip(k + 1));
        }
        if c != '%' {
            string_push(&mut out, c);
            proof {
                assert(out@ + expand(chars@.skip(k + 1), f) =~= before + expand(rest, f));
            }
            k = k + 1;
        } else if k + 1 == n {
            string_push(&mut out, '%');
            proof {
                assert(chars@.skip(k + 1) =~= Seq::<char>::empty());
                assert(rest.len() == 1);
                assert(out@ + expand(chars@.skip(k + 1), f) =~= before + expand(rest, f));
            }
            k = k + 1;
        } else {
            let d = chars[k + 1];
            if d == 'Y' {
                push_padded(&mut out, year, 4);
            } else if d == 'm' {
                push_padded(&mut out, month as u64, 2);
            } else if d == 'd' {
                push_padded(&mut out, day as u64, 2);
            } else if d == 'H' {
                push_padded(&mut out, hours, 2);
            } else if d == 'M' {
                push_padded(&mut out, minutes, 2);
            } else if d == 'S' {
                push_padded(&mut out, seconds, 2);
            } else if d == '%' {
                string_push(&mut out, '%');
            } else {
                string_push(&mut out, '%');
                string_push(&mut out, d);
            }
            proof {
                assert(rest[1] == d);
                assert(rest.skip(2) =~= chars@.skip(k + 2));
                let piece = if d == 'Y' {
                    padded(f.year, 4)
                } else if d == 'm' {
                    padded(f.month, 2)
                } else if d == 'd' {
                    padded(f.day, 2)
                } else if d == 'H' {
                    padded(f.hour, 2)
                } else if d == 'M' {
                    padded(f.minute, 2)
                } else if d == 'S' {
                    padded(f.second, 2)
                } else if d == '%' {
                    seq!['%']
                } else {
                    seq!['%', d]
                };
                assert(out@ =~= before + piece);
                assert(expand(rest, f) == piece + expand(rest.skip(2), f));
                assert(out@ + expand(chars@.skip(k + 2), f) =~= before + expand(rest, f));
            }
            k = k + 2;
        }
    }
    proof {
        assert(chars@.skip(n as int) =~= Seq::<char>::empty());
        assert(out@ + Seq::<char>::empty() =~= out@);
    }
    out
}

/// The declared signatures of the date and time functions, in order.
pub open spec fn signature_table() -> Seq<SigSpec> {
    seq![
        ("now"@, Seq::empty(), Some(Type::F64)),
        ("format"@, seq![("timestamp"@, Type::F64), ("fmt"@, Type::Str)], Some(Type::Str)),
    ]
}

/// The signatures of the date and time functions, for name resolution and typing.
pub fn signatures() -> (sigs: Vec<FnSignature>)
    ensures
        sigs_match(sigs@, signature_table()),
{
    let mut sigs: Vec<FnSignature> = Vec::new();
    let ghost mut table: Seq<SigSpec> = Seq::empty();
    let s = sig("now", vec![], Some(Type::F64));
    proof {
        assert(param_views(s.params@) =~= ("now"@, Seq::empty(), Some(Type::F64)).1);
        lemma_sigs_match_push(sigs@, table, s, ("now"@, Seq::empty(), Some(Type::F64)));
        table = table.push(("now"@, Seq::empty(), Some(Type::F64)));
    }
    sigs.push(s);
    let s = sig("format", vec![param("timestamp", Type::F64), param("fmt", Type::Str)], Some(Type::Str));
    proof {
        assert(param_views(s.params@) =~= ("format"@, seq![("timestamp"@, Type::F64), ("fmt"@, Type::Str)], Some(Type::Str)).1);
        lemma_sigs_match_push(sigs@, table, s, ("format"@, seq![("timestamp"@, Type::F64), ("fmt"@, Type::Str)], Some(Type::Str)));
        table = table.push(("format"@, seq![("timestamp"@, Type::F64), ("fmt"@, Type::Str)], Some(Type::Str)));
    }
    sigs.push(s);
    assert(table =~= signature_table());
    sigs
}

} // verus!
