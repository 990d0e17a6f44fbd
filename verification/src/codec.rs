//! The JSON wire format of the contribution envelope: a recursive-descent
//! decoder and a serializer for the calendar structure, with a proof that
//! serializing and re-parsing a calendar preserves it.
//!
//! The decoder accepts the compact form of the envelope that the service
//! emits (no whitespace between tokens, no escape sequences inside
//! strings); anything else is a parse failure, which the caller reports
//! as such.

use vstd::prelude::*;
use crate::model::{
    days_view, messages_view, weeks_view, CalendarView, ContributionCalendar, ContributionDay,
    DayView, Envelope, EnvelopeData, Week, WeekView,
};

verus! {

/// Whether `c` is an ASCII decimal digit.
pub open spec fn is_digit(c: char) -> bool {
    48 <= c as u32 && c as u32 <= 57
}

/// The value of a decimal digit.
pub open spec fn digit_val(c: char) -> int {
    c as u32 - 48
}

/// The character for the decimal digit `d`.
pub open spec fn digit_char(d: int) -> char {
    if d == 0 {
        '0'
    } else if d == 1 {
        '1'
    } else if d == 2 {
        '2'
    } else if d == 3 {
        '3'
    } else if d == 4 {
        '4'
    } else if d == 5 {
        '5'
    } else if d == 6 {
        '6'
    } else if d == 7 {
        '7'
    } else if d == 8 {
        '8'
    } else {
        '9'
    }
}

/// Ten to the `k`.
pub open spec fn pow10(k: nat) -> int
    decreases k,
{
    if k == 0 {
        1
    } else {
        10 * pow10((k - 1) as nat)
    }
}

/// Match the exact text `lit` at position `i`; the position after it.
pub open spec fn parse_lit(s: Seq<char>, i: int, lit: Seq<char>) -> Option<int> {
    if 0 <= i && i + lit.len() <= s.len() && s.subrange(i, i + lit.len() as int) == lit {
        Some(i + lit.len())
    } else {
        None
    }
}

/// Consume decimal digits from position `i`, extending the value `acc`;
/// fails if the value would exceed `u32::MAX`.
pub open spec fn parse_num_rec(s: Seq<char>, i: int, acc: int) -> Option<(int, int)>
    decreases s.len() - i,
{
    if i < s.len() && is_digit(s[i]) {
        let acc2 = acc * 10 + digit_val(s[i]);
        if acc2 > u32::MAX {
            None
        } else {
            parse_num_rec(s, i + 1, acc2)
        }
    } else {
        Some((acc, i))
    }
}

/// A decimal number at position `i`: at least one digit, value within
/// `u32`.
pub open spec fn parse_u32(s: Seq<char>, i: int) -> Option<(u32, int)> {
    if 0 <= i && i < s.len() && is_digit(s[i]) {
        match parse_num_rec(s, i, 0) {
            Some((v, j)) => Some((v as u32, j)),
            None => None,
        }
    } else {
        None
    }
}

/// Consume string-literal content from position `i` (after the opening
/// quote), extending `acc`, up to the closing quote. Escape sequences are
/// not part of the supported subset: a backslash fails.
pub open spec fn parse_str_rec(s: Seq<char>, i: int, acc: Seq<char>) -> Option<(Seq<char>, int)>
    decreases s.len() - i,
{
    if i < 0 || i >= s.len() {
        None
    } else if s[i] == '"' {
        Some((acc, i + 1))
    } else if s[i] == '\\' {
        None
    } else {
        parse_str_rec(s, i + 1, acc + seq![s[i]])
    }
}

/// A quoted string at position `i`.
pub open spec fn parse_string(s: Seq<char>, i: int) -> Option<(Seq<char>, int)> {
    if 0 <= i && i < s.len() && s[i] == '"' {
        parse_str_rec(s, i + 1, Seq::empty())
    } else {
        None
    }
}

/// The decimal spelling of `n`.
pub open spec fn ser_u32(n: int) -> Seq<char>
    decreases n,
{
    if n < 10 {
        seq![digit_char(n)]
    } else {
        ser_u32(n / 10) + seq![digit_char(n % 10)]
    }
}

/// `t` inside double quotes.
pub open spec fn ser_string(t: Seq<char>) -> Seq<char> {
    seq!['"'] + t + seq!['"']
}

/// Text that may stand inside a string literal of the supported subset:
/// no quote, no backslash.
pub open spec fn plain_text(t: Seq<char>) -> bool {
    forall|k: int| 0 <= k < t.len() ==> (#[trigger] t[k]) != '"' && t[k] != '\\'
}

proof fn lemma_parse_num_rec_bounds(s: Seq<char>, i: int, acc: int)
    requires
        0 <= i <= s.len(),
        parse_num_rec(s, i, acc) is Some,
    ensures
        i <= (parse_num_rec(s, i, acc)->0).1 <= s.len(),
    decreases s.len() - i,
{
    if i < s.len() && is_digit(s[i]) {
        let acc2 = acc * 10 + digit_val(s[i]);
        if acc2 <= u32::MAX {
            lemma_parse_num_rec_bounds(s, i + 1, acc2);
        }
    }
}

proof fn lemma_parse_str_rec_bounds(s: Seq<char>, i: int, acc: Seq<char>)
    requires
        0 <= i <= s.len(),
        parse_str_rec(s, i, acc) is Some,
    ensures
        i < (parse_str_rec(s, i, acc)->0).1 <= s.len(),
    decreases s.len() - i,
{
    if i < s.len() && s[i] != '"' && s[i] != '\\' {
        lemma_parse_str_rec_bounds(s, i + 1, acc + seq![s[i]]);
    }
}

/// The length of the decimal spelling is at least one.
proof fn lemma_ser_u32_len(n: int)
    requires
        n >= 0,
    ensures
        ser_u32(n).len() >= 1,
    decreases n,
{
    if n >= 10 {
        lemma_ser_u32_len(n / 10);
    }
}

proof fn lemma_digit_char_val(d: int)
    requires
        0 <= d <= 9,
    ensures
        is_digit(digit_char(d)),
        digit_val(digit_char(d)) == d,
{
}

/// Scanning a serialized number: the digits of `n` standing at `i` extend
/// the accumulator by `n` in their decimal positions.
proof fn lemma_parse_num_over_ser(s: Seq<char>, i: int, n: int, acc: int)
    requires
        0 <= n <= u32::MAX,
        0 <= acc,
        0 <= i,
        i + ser_u32(n).len() <= s.len(),
        s.subrange(i, i + ser_u32(n).len() as int) == ser_u32(n),
        acc * pow10(ser_u32(n).len() as nat) + n <= u32::MAX,
    ensures
        parse_num_rec(s, i, acc) == parse_num_rec(
            s,
            i + ser_u32(n).len(),
            acc * pow10(ser_u32(n).len() as nat) + n,
        ),
    decreases n,
{
    let l = ser_u32(n).len() as int;
    if n < 10 {
        assert(ser_u32(n) =~= seq![digit_char(n)]);
        assert(s.subrange(i, i + 1)[0] == s[i]);
        assert(s[i] == digit_char(n));
        lemma_digit_char_val(n);
        assert(pow10(0) == 1);
        assert(pow10(1) == 10);
        assert(acc * 10 + n <= u32::MAX);
    } else {
        let m = n / 10;
        let d = n % 10;
        let lm = ser_u32(m).len() as int;
        lemma_ser_u32_len(m);
        assert(ser_u32(n) == ser_u32(m) + seq![digit_char(d)]);
        assert(l == lm + 1);
        assert(s.subrange(i, i + lm) =~= ser_u32(m)) by {
            assert(forall|k: int|
                0 <= k < lm ==> ser_u32(n)[k] == #[trigger] ser_u32(m)[k]);
        }
        let accm = acc * pow10(lm as nat) + m;
        assert(pow10(l as nat) == 10 * pow10(lm as nat)) by {
            assert(pow10((lm + 1) as nat) == 10 * pow10(lm as nat));
        }
        assert(accm * 10 + d == acc * pow10(l as nat) + n) by (nonlinear_arith)
            requires
                accm == acc * pow10(lm as nat) + m,
                pow10(l as nat) == 10 * pow10(lm as nat),
                n == m * 10 + d,
        {}
        assert(pow10(lm as nat) >= 1) by {
            lemma_pow10_pos(lm as nat);
        }
        assert(accm <= acc * pow10(l as nat) + n) by (nonlinear_arith)
            requires
                accm * 10 + d == acc * pow10(l as nat) + n,
                0 <= d,
                0 <= accm,
        {}
        assert(0 <= accm) by (nonlinear_arith)
            requires
                accm == acc * pow10(lm as nat) + m,
                acc >= 0,
                pow10(lm as nat) >= 1,
                m >= 0,
        {}
        lemma_parse_num_over_ser(s, i, m, acc);
        assert(s[i + lm] == digit_char(d)) by {
            assert(ser_u32(n)[lm] == digit_char(d));
        }
        lemma_digit_char_val(d);
        assert(parse_num_rec(s, i + lm, accm) == parse_num_rec(s, i + lm + 1, accm * 10 + d));
    }
}

proof fn lemma_pow10_pos(k: nat)
    ensures
        pow10(k) >= 1,
    decreases k,
{
    if k > 0 {
        lemma_pow10_pos((k - 1) as nat);
    }
}

/// Round trip for numbers: the decimal spelling of `n` standing at `i`,
/// followed by a non-digit (or the end), parses back to `n`.
proof fn lemma_rt_u32(s: Seq<char>, i: int, n: u32)
    requires
        0 <= i,
        i + ser_u32(n as int).len() <= s.len(),
        s.subrange(i, i + ser_u32(n as int).len() as int) == ser_u32(n as int),
        i + ser_u32(n as int).len() == s.len() || !is_digit(s[i + ser_u32(n as int).len()]),
    ensures
        parse_u32(s, i) == Some((n, i + ser_u32(n as int).len())),
{
    let l = ser_u32(n as int).len() as int;
    lemma_ser_u32_len(n as int);
    assert(pow10(l as nat) >= 1) by {
        lemma_pow10_pos(l as nat);
    }
    lemma_parse_num_over_ser(s, i, n as int, 0);
    assert(0 * pow10(l as nat) + n == n);
    assert(parse_num_rec(s, i + l, n as int) == Some((n as int, i + l)));
    assert(s[i] == ser_u32(n as int)[0]);
    assert(is_digit(s[i])) by {
        if n < 10 {
            lemma_digit_char_val(n as int);
        } else {
            lemma_first_digit_is_digit(n as int);
        }
    }
}

proof fn lemma_first_digit_is_digit(n: int)
    requires
        n >= 0,
    ensures
        is_digit(ser_u32(n)[0]),
    decreases n,
{
    if n < 10 {
        lemma_digit_char_val(n);
    } else {
        lemma_first_digit_is_digit(n / 10);
        lemma_ser_u32_len(n / 10);
        assert(ser_u32(n)[0] == ser_u32(n / 10)[0]);
    }
}

/// Round trip for strings: plain text in quotes standing at `i` parses
/// back to the text.
proof fn lemma_rt_string(s: Seq<char>, i: int, t: Seq<char>)
    requires
        0 <= i,
        plain_text(t),
        i + t.len() + 2 <= s.len(),
        s.subrange(i, i + t.len() + 2) == ser_string(t),
    ensures
        parse_string(s, i) == Some((t, i + t.len() + 2)),
{
    assert(s[i] == '"') by {
        assert(s.subrange(i, i + t.len() + 2)[0] == s[i]);
        assert(ser_string(t)[0] == '"');
    }
    assert(s.subrange(i + 1, i + 1 + t.len() as int) =~= t) by {
        assert forall|k: int| 0 <= k < t.len() implies s[i + 1 + k] == t[k] by {
            assert(s.subrange(i, i + t.len() + 2)[k + 1] == s[i + 1 + k]);
            assert(ser_string(t)[k + 1] == t[k]);
        }
    }
    assert(s[i + 1 + t.len()] == '"') by {
        assert(s.subrange(i, i + t.len() + 2)[t.len() + 1 as int] == s[i + 1 + t.len()]);
        assert(ser_string(t)[t.len() + 1 as int] == '"');
    }
    lemma_rt_str_rec(s, i + 1, t, Seq::empty());
    assert(Seq::<char>::empty() + t =~= t);
}

// ------------------------------------------------------------------
// The envelope grammar
// ------------------------------------------------------------------

/// The serialized form of one day.
pub open spec fn ser_day(d: DayView) -> Seq<char> {
    "{\"date\":"@ + ser_string(d.date) + ",\"contributionCount\":"@ + ser_u32(d.count as int)
        + ",\"color\":"@ + ser_string(d.color) + "}"@
}

/// The serialized days of a week from index `k` on, comma-separated.
pub open spec fn ser_days_from(ds: Seq<DayView>, k: int) -> Seq<char>
    decreases ds.len() - k,
{
    if k < 0 || k >= ds.len() {
        Seq::empty()
    } else if k == ds.len() - 1 {
        ser_day(ds[k])
    } else {
        ser_day(ds[k]) + seq![','] + ser_days_from(ds, k + 1)
    }
}

/// The serialized form of one week.
pub open spec fn ser_week(w: WeekView) -> Seq<char> {
    "{\"contributionDays\":["@ + ser_days_from(w.days, 0) + "]}"@
}

/// The serialized weeks of a calendar from index `k` on, comma-separated.
pub open spec fn ser_weeks_from(ws: Seq<WeekView>, k: int) -> Seq<char>
    decreases ws.len() - k,
{
    if k < 0 || k >= ws.len() {
        Seq::empty()
    } else if k == ws.len() - 1 {
        ser_week(ws[k])
    } else {
        ser_week(ws[k]) + seq![','] + ser_weeks_from(ws, k + 1)
    }
}

/// The serialized form of a calendar.
pub open spec fn ser_calendar(c: CalendarView) -> Seq<char> {
    "{\"totalContributions\":"@ + ser_u32(c.total as int) + ",\"weeks\":["@ + ser_weeks_from(
        c.weeks,
        0,
    ) + "]}"@
}

/// A day object at position `i`.
pub open spec fn parse_day(s: Seq<char>, i: int) -> Option<(DayView, int)> {
    match parse_lit(s, i, "{\"date\":"@) {
        Some(j1) => match parse_string(s, j1) {
            Some((date, j2)) => match parse_lit(s, j2, ",\"contributionCount\":"@) {
                Some(j3) => match parse_u32(s, j3) {
                    Some((count, j4)) => match parse_lit(s, j4, ",\"color\":"@) {
                        Some(j5) => match parse_string(s, j5) {
                            Some((color, j6)) => match parse_lit(s, j6, "}"@) {
                                Some(j7) => Some((DayView { date, count, color }, j7)),
                                None => None,
                            },
                            None => None,
                        },
                        None => None,
                    },
                    None => None,
                },
                None => None,
            },
            None => None,
        },
        None => None,
    }
}

proof fn lemma_parse_string_bounds(s: Seq<char>, i: int)
    requires
        parse_string(s, i) is Some,
    ensures
        i < (parse_string(s, i)->0).1 <= s.len(),
{
    lemma_parse_str_rec_bounds(s, i + 1, Seq::empty());
}

proof fn lemma_parse_u32_bounds(s: Seq<char>, i: int)
    requires
        parse_u32(s, i) is Some,
    ensures
        i < (parse_u32(s, i)->0).1 <= s.len(),
{
    let acc2 = digit_val(s[i]);
    assert(parse_num_rec(s, i, 0) == parse_num_rec(s, i + 1, acc2));
    lemma_parse_num_rec_bounds(s, i + 1, acc2);
}

proof fn lemma_parse_day_bounds(s: Seq<char>, i: int)
    requires
        parse_day(s, i) is Some,
    ensures
        i < (parse_day(s, i)->0).1 <= s.len(),
{
    let j1 = parse_lit(s, i, "{\"date\":"@)->0;
    lemma_parse_string_bounds(s, j1);
    let j2 = (parse_string(s, j1)->0).1;
    let j3 = parse_lit(s, j2, ",\"contributionCount\":"@)->0;
    lemma_parse_u32_bounds(s, j3);
    let j4 = (parse_u32(s, j3)->0).1;
    let j5 = parse_lit(s, j4, ",\"color\":"@)->0;
    lemma_parse_string_bounds(s, j5);
}

/// The days of a week from position `i` on, extending `acc`; stops before
/// the first character after a day that is not a comma.
pub open spec fn parse_days_rec(s: Seq<char>, i: int, acc: Seq<DayView>) -> Option<
    (Seq<DayView>, int),
>
    decreases s.len() - i,
    via parse_days_rec_dec
{
    match parse_day(s, i) {
        Some((d, j)) => if j < s.len() && s[j] == ',' {
            parse_days_rec(s, j + 1, acc.push(d))
        } else {
            Some((acc.push(d), j))
        },
        None => None,
    }
}

#[via_fn]
proof fn parse_days_rec_dec(s: Seq<char>, i: int, acc: Seq<DayView>) {
    if parse_day(s, i) is Some {
        lemma_parse_day_bounds(s, i);
    }
}

/// A week object at position `i`.
pub open spec fn parse_week(s: Seq<char>, i: int) -> Option<(WeekView, int)> {
    match parse_lit(s, i, "{\"contributionDays\":["@) {
        Some(j1) => if j1 < s.len() && s[j1] == ']' {
            match parse_lit(s, j1, "]}"@) {
                Some(j2) => Some((WeekView { days: Seq::empty() }, j2)),
                None => None,
            }
        } else {
            match parse_days_rec(s, j1, Seq::empty()) {
                Some((ds, j2)) => match parse_lit(s, j2, "]}"@) {
                    Some(j3) => Some((WeekView { days: ds }, j3)),
                    None => None,
                },
                None => None,
            }
        },
        None => None,
    }
}

proof fn lemma_parse_days_rec_bounds(s: Seq<char>, i: int, acc: Seq<DayView>)
    requires
        parse_days_rec(s, i, acc) is Some,
    ensures
        i < (parse_days_rec(s, i, acc)->0).1 <= s.len(),
    decreases s.len() - i,
{
    lemma_parse_day_bounds(s, i);
    let j = (parse_day(s, i)->0).1;
    if j < s.len() && s[j] == ',' {
        lemma_parse_days_rec_bounds(s, j + 1, acc.push((parse_day(s, i)->0).0));
    }
}

proof fn lemma_parse_week_bounds(s: Seq<char>, i: int)
    requires
        parse_week(s, i) is Some,
    ensures
        i < (parse_week(s, i)->0).1 <= s.len(),
{
    reveal_strlit("]}");
    let j1 = parse_lit(s, i, "{\"contributionDays\":["@)->0;
    if !(j1 < s.len() && s[j1] == ']') {
        lemma_parse_days_rec_bounds(s, j1, Seq::empty());
    }
}

/// The weeks of a calendar from position `i` on, extending `acc`.
pub open spec fn parse_weeks_rec(s: Seq<char>, i: int, acc: Seq<WeekView>) -> Option<
    (Seq<WeekView>, int),
>
    decreases s.len() - i,
    via parse_weeks_rec_dec
{
    match parse_week(s, i) {
        Some((w, j)) => if j < s.len() && s[j] == ',' {
            parse_weeks_rec(s, j + 1, acc.push(w))
        } else {
            Some((acc.push(w), j))
        },
        None => None,
    }
}

#[via_fn]
proof fn parse_weeks_rec_dec(s: Seq<char>, i: int, acc: Seq<WeekView>) {
    if parse_week(s, i) is Some {
        lemma_parse_week_bounds(s, i);
    }
}

/// A calendar object at position `i`.
pub open spec fn parse_calendar(s: Seq<char>, i: int) -> Option<(CalendarView, int)> {
    match parse_lit(s, i, "{\"totalContributions\":"@) {
        Some(j1) => match parse_u32(s, j1) {
            Some((total, j2)) => match parse_lit(s, j2, ",\"weeks\":["@) {
                Some(j3) => if j3 < s.len() && s[j3] == ']' {
                    match parse_lit(s, j3, "]}"@) {
                        Some(j4) => Some((CalendarView { total, weeks: Seq::empty() }, j4)),
                        None => None,
                    }
                } else {
                    match parse_weeks_rec(s, j3, Seq::empty()) {
                        Some((ws, j4)) => match parse_lit(s, j4, "]}"@) {
                            Some(j5) => Some((CalendarView { total, weeks: ws }, j5)),
                            None => None,
                        },
                        None => None,
                    }
                },
                None => None,
            },
            None => None,
        },
        None => None,
    }
}

/// Mathematical view of a decoded envelope: `data` is absent or null
/// (`None`), present with a null `user` (`Some(None)`), or present with a
/// calendar; `errors` is absent or null (`None`) or a list of messages.
pub ghost struct EnvelopeView {
    pub data: Option<Option<CalendarView>>,
    pub errors: Option<Seq<Seq<char>>>,
}

/// The value of a `user` member: null, or the collection wrapping a
/// calendar.
pub open spec fn parse_user_value(s: Seq<char>, i: int) -> Option<(Option<CalendarView>, int)> {
    match parse_lit(s, i, "null"@) {
        Some(j) => Some((None, j)),
        None => match parse_lit(s, i, "{\"contributionsCollection\":{\"contributionCalendar\":"@) {
            Some(j1) => match parse_calendar(s, j1) {
                Some((c, j2)) => match parse_lit(s, j2, "}}"@) {
                    Some(j3) => Some((Some(c), j3)),
                    None => None,
                },
                None => None,
            },
            None => None,
        },
    }
}

/// The value of a `data` member: null, or an object with a `user` member.
pub open spec fn parse_data_value(s: Seq<char>, i: int) -> Option<
    (Option<Option<CalendarView>>, int),
> {
    match parse_lit(s, i, "null"@) {
        Some(j) => Some((None, j)),
        None => match parse_lit(s, i, "{\"user\":"@) {
            Some(j1) => match parse_user_value(s, j1) {
                Some((u, j2)) => match parse_lit(s, j2, "}"@) {
                    Some(j3) => Some((Some(u), j3)),
                    None => None,
                },
                None => None,
            },
            None => None,
        },
    }
}

/// One error object: its `message` string.
pub open spec fn parse_error_obj(s: Seq<char>, i: int) -> Option<(Seq<char>, int)> {
    match parse_lit(s, i, "{\"message\":"@) {
        Some(j1) => match parse_string(s, j1) {
            Some((m, j2)) => match parse_lit(s, j2, "}"@) {
                Some(j3) => Some((m, j3)),
                None => None,
            },
            None => None,
        },
        None => None,
    }
}

proof fn lemma_parse_error_obj_bounds(s: Seq<char>, i: int)
    requires
        parse_error_obj(s, i) is Some,
    ensures
        i < (parse_error_obj(s, i)->0).1 <= s.len(),
{
    let j1 = parse_lit(s, i, "{\"message\":"@)->0;
    lemma_parse_string_bounds(s, j1);
}

/// The error objects from position `i` on, extending `acc`.
pub open spec fn parse_errs_rec(s: Seq<char>, i: int, acc: Seq<Seq<char>>) -> Option<
    (Seq<Seq<char>>, int),
>
    decreases s.len() - i,
    via parse_errs_rec_dec
{
    match parse_error_obj(s, i) {
        Some((m, j)) => if j < s.len() && s[j] == ',' {
            parse_errs_rec(s, j + 1, acc.push(m))
        } else {
            Some((acc.push(m), j))
        },
        None => None,
    }
}

#[via_fn]
proof fn parse_errs_rec_dec(s: Seq<char>, i: int, acc: Seq<Seq<char>>) {
    if parse_error_obj(s, i) is Some {
        lemma_parse_error_obj_bounds(s, i);
    }
}

/// The value of an `errors` member: null, or a (possibly empty) array of
/// error objects.
pub open spec fn parse_errors_value(s: Seq<char>, i: int) -> Option<
    (Option<Seq<Seq<char>>>, int),
> {
    match parse_lit(s, i, "null"@) {
        Some(j) => Some((None, j)),
        None => match parse_lit(s, i, "["@) {
            Some(j1) => if j1 < s.len() && s[j1] == ']' {
                Some((Some(Seq::empty()), j1 + 1))
            } else {
                match parse_errs_rec(s, j1, Seq::empty()) {
                    Some((ms, j2)) => match parse_lit(s, j2, "]"@) {
                        Some(j3) => Some((Some(ms), j3)),
                        None => None,
                    },
                    None => None,
                }
            },
            None => None,
        },
    }
}

/// The whole response envelope: an object whose `data` and `errors`
/// members may stand in either order, each optional, covering the input
/// exactly.
pub open spec fn parse_envelope(s: Seq<char>) -> Option<EnvelopeView> {
    match parse_lit(s, 0, "{\"data\":"@) {
        Some(j1) => match parse_data_value(s, j1) {
            Some((d, j2)) => match parse_lit(s, j2, ",\"errors\":"@) {
                Some(j3) => match parse_errors_value(s, j3) {
                    Some((e, j4)) => if parse_lit(s, j4, "}"@) == Some(s.len() as int) {
                        Some(EnvelopeView { data: d, errors: e })
                    } else {
                        None
                    },
                    None => None,
                },
                None => if parse_lit(s, j2, "}"@) == Some(s.len() as int) {
                    Some(EnvelopeView { data: d, errors: None })
                } else {
                    None
                },
            },
            None => None,
        },
        None => match parse_lit(s, 0, "{\"errors\":"@) {
            Some(j1) => match parse_errors_value(s, j1) {
                Some((e, j2)) => match parse_lit(s, j2, ",\"data\":"@) {
                    Some(j3) => match parse_data_value(s, j3) {
                        Some((d, j4)) => if parse_lit(s, j4, "}"@) == Some(s.len() as int) {
                            Some(EnvelopeView { data: d, errors: e })
                        } else {
                            None
                        },
                        None => None,
                    },
                    None => if parse_lit(s, j2, "}"@) == Some(s.len() as int) {
                        Some(EnvelopeView { data: None, errors: e })
                    } else {
                        None
                    },
                },
                None => None,
            },
            None => if parse_lit(s, 0, "{}"@) == Some(s.len() as int) {
                Some(EnvelopeView { data: None, errors: None })
            } else {
                None
            },
        },
    }
}

/// The view of a decoded envelope value.
pub open spec fn envelope_view(e: Envelope) -> EnvelopeView {
    EnvelopeView {
        data: match e.data {
            Some(d) => Some(
                match d.user {
                    Some(c) => Some(c@),
                    None => None,
                },
            ),
            None => None,
        },
        errors: match e.errors {
            Some(v) => Some(messages_view(v@)),
            None => None,
        },
    }
}

// ------------------------------------------------------------------
// The decoder
// ------------------------------------------------------------------

/// Match the exact text `lit` at position `i`.
fn expect_lit(s: &str, i: usize, lit: &str) -> (r: Option<usize>)
    requires
        i <= s@.len(),
    ensures
        r matches Some(j) ==> parse_lit(s@, i as int, lit@) == Some(j as int) && i <= j <= s@.len(),
        r is None ==> parse_lit(s@, i as int, lit@) is None,
{
    let n = s.unicode_len();
    let llen = lit.unicode_len();
    if llen > n - i {
        return None;
    }
    let mut k: usize = 0;
    while k < llen
        invariant
            k <= llen,
            llen == lit@.len(),
            n == s@.len(),
            i + llen <= n,
            forall|m: int| 0 <= m < k ==> s@[i + m] == lit@[m],
        decreases llen - k,
    {
        if s.get_char(i + k) != lit.get_char(k) {
            proof {
                assert(s@.subrange(i as int, i + llen) != lit@) by {
                    assert(s@.subrange(i as int, i + llen)[k as int] == s@[i + k]);
                }
            }
            return None;
        }
        k = k + 1;
    }
    proof {
        assert(s@.subrange(i as int, i + llen) =~= lit@);
    }
    Some(i + llen)
}

/// A decimal `u32` at position `i`.
fn parse_u32_at(s: &str, i: usize) -> (r: Option<(u32, usize)>)
    requires
        i <= s@.len(),
    ensures
        r matches Some(p) ==> parse_u32(s@, i as int) == Some((p.0, p.1 as int)) && i < p.1
            <= s@.len(),
        r is None ==> parse_u32(s@, i as int) is None,
{
    let n = s.unicode_len();
    if i >= n {
        return None;
    }
    let c0 = s.get_char(i);
    let u0 = c0 as u32;
    if !(48 <= u0 && u0 <= 57) {
        return None;
    }
    let mut j: usize = i;
    let mut acc: u64 = 0;
    while j < n
        invariant
            i <= j <= n,
            n == s@.len(),
            acc <= u32::MAX as u64,
            is_digit(s@[i as int]),
            parse_num_rec(s@, i as int, 0) == parse_num_rec(s@, j as int, acc as int),
        decreases n - j,
    {
        let c = s.get_char(j);
        let u = c as u32;
        if 48 <= u && u <= 57 {
            let acc2: u64 = acc * 10 + ((u - 48) as u64);
            if acc2 > u32::MAX as u64 {
                return None;
            }
            acc = acc2;
            j = j + 1;
        } else {
            return Some((acc as u32, j));
        }
    }
    Some((acc as u32, j))
}

/// A quoted string at position `i`; escape sequences are outside the
/// supported subset.
fn parse_string_at(s: &str, i: usize) -> (r: Option<(String, usize)>)
    requires
        i <= s@.len(),
    ensures
        r matches Some(p) ==> parse_string(s@, i as int) == Some((p.0@, p.1 as int)) && i < p.1
            <= s@.len(),
        r is None ==> parse_string(s@, i as int) is None,
{
    let n = s.unicode_len();
    if i >= n {
        return None;
    }
    if s.get_char(i) != '"' {
        return None;
    }
    let mut j: usize = i + 1;
    while j < n
        invariant
            i + 1 <= j <= n,
            n == s@.len(),
            s@[i as int] == '"',
            forall|m: int| i + 1 <= m < j ==> s@[m] != '"' && s@[m] != '\\',
        decreases n - j,
    {
        let c = s.get_char(j);
        if c == '"' {
            let content = s.substring_char(i + 1, j).to_owned();
            proof {
                lemma_parse_str_scan(s@, i + 1, j as int, Seq::empty());
                assert(Seq::<char>::empty() + s@.subrange(i + 1, j as int) =~= s@.subrange(
                    i + 1,
                    j as int,
                ));
            }
            return Some((content, j + 1));
        }
        if c == '\\' {
            proof {
                lemma_parse_str_scan(s@, i + 1, j as int, Seq::empty());
            }
            return None;
        }
        j = j + 1;
    }
    proof {
        lemma_parse_str_scan(s@, i + 1, n as int, Seq::empty());
    }
    None
}

proof fn lemma_parse_str_scan(s: Seq<char>, a: int, b: int, acc: Seq<char>)
    requires
        0 <= a <= b <= s.len(),
        forall|m: int| a <= m < b ==> s[m] != '"' && s[m] != '\\',
    ensures
        b == s.len() ==> parse_str_rec(s, a, acc) is None,
        b < s.len() && s[b] == '"' ==> parse_str_rec(s, a, acc) == Some(
            (acc + s.subrange(a, b), b + 1),
        ),
        b < s.len() && s[b] == '\\' ==> parse_str_rec(s, a, acc) is None,
    decreases b - a,
{
    if a == b {
        if b < s.len() && s[b] == '"' {
            assert(acc + s.subrange(a, b) =~= acc);
        }
    } else {
        lemma_parse_str_scan(s, a + 1, b, acc + seq![s[a]]);
        if b < s.len() && s[b] == '"' {
            assert((acc + seq![s[a]]) + s.subrange(a + 1, b) =~= acc + s.subrange(a, b));
        }
    }
}

/// A day object at position `i`.
fn parse_day_at(s: &str, i: usize) -> (r: Option<(ContributionDay, usize)>)
    requires
        i <= s@.len(),
    ensures
        r matches Some(p) ==> parse_day(s@, i as int) == Some((p.0@, p.1 as int)) && i < p.1
            <= s@.len(),
        r is None ==> parse_day(s@, i as int) is None,
{
    let j1 = match expect_lit(s, i, "{\"date\":") {
        Some(j) => j,
        None => {
            return None;
        },
    };
    let (date, j2) = match parse_string_at(s, j1) {
        Some(p) => p,
        None => {
            return None;
        },
    };
    let j3 = match expect_lit(s, j2, ",\"contributionCount\":") {
        Some(j) => j,
        None => {
            return None;
        },
    };
    let (count, j4) = match parse_u32_at(s, j3) {
        Some(p) => p,
        None => {
            return None;
        },
    };
    let j5 = match expect_lit(s, j4, ",\"color\":") {
        Some(j) => j,
        None => {
            return None;
        },
    };
    let (color, j6) = match parse_string_at(s, j5) {
        Some(p) => p,
        None => {
            return None;
        },
    };
    let j7 = match expect_lit(s, j6, "}") {
        Some(j) => j,
        None => {
            return None;
        },
    };
    Some((ContributionDay { date, contribution_count: count, color }, j7))
}

/// The comma-separated day objects from position `i`.
fn parse_days_at(s: &str, i: usize) -> (r: Option<(Vec<ContributionDay>, usize)>)
    requires
        i <= s@.len(),
    ensures
        r matches Some(p) ==> parse_days_rec(s@, i as int, Seq::empty()) == Some(
            (days_view(p.0@), p.1 as int),
        ) && i < p.1 <= s@.len(),
        r is None ==> parse_days_rec(s@, i as int, Seq::empty()) is None,
{
    let n = s.unicode_len();
    let mut out: Vec<ContributionDay> = Vec::new();
    let mut j: usize = i;
    proof {
        assert(days_view(out@) =~= Seq::<DayView>::empty());
    }
    loop
        invariant
            i <= j <= n,
            n == s@.len(),
            parse_days_rec(s@, i as int, Seq::empty()) == parse_days_rec(
                s@,
                j as int,
                days_view(out@),
            ),
        decreases n - j,
    {
        let (d, j2) = match parse_day_at(s, j) {
            Some(p) => p,
            None => {
                return None;
            },
        };
        let ghost old_out = out@;
        out.push(d);
        proof {
            assert(days_view(out@) =~= days_view(old_out).push(d@));
        }
        if j2 < n && s.get_char(j2) == ',' {
            j = j2 + 1;
        } else {
            return Some((out, j2));
        }
    }
}

/// A week object at position `i`.
fn parse_week_at(s: &str, i: usize) -> (r: Option<(Week, usize)>)
    requires
        i <= s@.len(),
    ensures
        r matches Some(p) ==> parse_week(s@, i as int) == Some((p.0@, p.1 as int)) && i < p.1
            <= s@.len(),
        r is None ==> parse_week(s@, i as int) is None,
{
    let n = s.unicode_len();
    let j1 = match expect_lit(s, i, "{\"contributionDays\":[") {
        Some(j) => j,
        None => {
            return None;
        },
    };
    if j1 < n && s.get_char(j1) == ']' {
        match expect_lit(s, j1, "]}") {
            Some(j2) => {
                let w = Week { contribution_days: Vec::new() };
                proof {
                    reveal_strlit("]}");
                    assert(w@.days =~= Seq::<DayView>::empty());
                }
                return Some((w, j2));
            },
            None => {
                return None;
            },
        }
    }
    let (ds, j2) = match parse_days_at(s, j1) {
        Some(p) => p,
        None => {
            return None;
        },
    };
    let j3 = match expect_lit(s, j2, "]}") {
        Some(j) => j,
        None => {
            return None;
        },
    };
    proof {
        reveal_strlit("]}");
    }
    Some((Week { contribution_days: ds }, j3))
}

/// The comma-separated week objects from position `i`.
fn parse_weeks_at(s: &str, i: usize) -> (r: Option<(Vec<Week>, usize)>)
    requires
        i <= s@.len(),
    ensures
        r matches Some(p) ==> parse_weeks_rec(s@, i as int, Seq::empty()) == Some(
            (weeks_view(p.0@), p.1 as int),
        ) && i < p.1 <= s@.len(),
        r is None ==> parse_weeks_rec(s@, i as int, Seq::empty()) is None,
{
    let n = s.unicode_len();
    let mut out: Vec<Week> = Vec::new();
    let mut j: usize = i;
    proof {
        assert(weeks_view(out@) =~= Seq::<WeekView>::empty());
    }
    loop
        invariant
            i <= j <= n,
            n == s@.len(),
            parse_weeks_rec(s@, i as int, Seq::empty()) == parse_weeks_rec(
                s@,
                j as int,
                weeks_view(out@),
            ),
        decreases n - j,
    {
        let (w, j2) = match parse_week_at(s, j) {
            Some(p) => p,
            None => {
                return None;
            },
        };
        let ghost old_out = out@;
        out.push(w);
        proof {
            assert(weeks_view(out@) =~= weeks_view(old_out).push(w@));
        }
        if j2 < n && s.get_char(j2) == ',' {
            j = j2 + 1;
        } else {
            return Some((out, j2));
        }
    }
}

/// A calendar object at position `i`.
pub fn parse_calendar_at(s: &str, i: usize) -> (r: Option<(ContributionCalendar, usize)>)
    requires
        i <= s@.len(),
    ensures
        r matches Some(p) ==> parse_calendar(s@, i as int) == Some((p.0@, p.1 as int)) && i < p.1
            <= s@.len(),
        r is None ==> parse_calendar(s@, i as int) is None,
{
    let n = s.unicode_len();
    let j1 = match expect_lit(s, i, "{\"totalContributions\":") {
        Some(j) => j,
        None => {
            return None;
        },
    };
    let (total, j2) = match parse_u32_at(s, j1) {
        Some(p) => p,
        None => {
            return None;
        },
    };
    let j3 = match expect_lit(s, j2, ",\"weeks\":[") {
        Some(j) => j,
        None => {
            return None;
        },
    };
    if j3 < n && s.get_char(j3) == ']' {
        match expect_lit(s, j3, "]}") {
            Some(j4) => {
                let c = ContributionCalendar { total_contributions: total, weeks: Vec::new() };
                proof {
                    reveal_strlit("]}");
                    assert(c@.weeks =~= Seq::<WeekView>::empty());
                }
                return Some((c, j4));
            },
            None => {
                return None;
            },
        }
    }
    let (ws, j4) = match parse_weeks_at(s, j3) {
        Some(p) => p,
        None => {
            return None;
        },
    };
    let j5 = match expect_lit(s, j4, "]}") {
        Some(j) => j,
        None => {
            return None;
        },
    };
    proof {
        reveal_strlit("]}");
    }
    Some((ContributionCalendar { total_contributions: total, weeks: ws }, j5))
}

/// A `user` value at position `i`.
fn parse_user_at(s: &str, i: usize) -> (r: Option<(Option<ContributionCalendar>, usize)>)
    requires
        i <= s@.len(),
    ensures
        r matches Some(p) ==> parse_user_value(s@, i as int) == Some(
            (
                match p.0 {
                    Some(c) => Some(c@),
                    None => None,
                },
                p.1 as int,
            ),
        ) && p.1 <= s@.len(),
        r is None ==> parse_user_value(s@, i as int) is None,
{
    match expect_lit(s, i, "null") {
        Some(j) => {
            return Some((None, j));
        },
        None => {},
    }
    let j1 = match expect_lit(s, i, "{\"contributionsCollection\":{\"contributionCalendar\":") {
        Some(j) => j,
        None => {
            return None;
        },
    };
    let (c, j2) = match parse_calendar_at(s, j1) {
        Some(p) => p,
        None => {
            return None;
        },
    };
    let j3 = match expect_lit(s, j2, "}}") {
        Some(j) => j,
        None => {
            return None;
        },
    };
    Some((Some(c), j3))
}

/// A `data` value at position `i`.
fn parse_data_at(s: &str, i: usize) -> (r: Option<(Option<EnvelopeData>, usize)>)
    requires
        i <= s@.len(),
    ensures
        r matches Some(p) ==> parse_data_value(s@, i as int) == Some(
            (
                match p.0 {
                    Some(d) => Some(
                        match d.user {
                            Some(c) => Some(c@),
                            None => None,
                        },
                    ),
                    None => None,
                },
                p.1 as int,
            ),
        ) && p.1 <= s@.len(),
        r is None ==> parse_data_value(s@, i as int) is None,
{
    match expect_lit(s, i, "null") {
        Some(j) => {
            return Some((None, j));
        },
        None => {},
    }
    let j1 = match expect_lit(s, i, "{\"user\":") {
        Some(j) => j,
        None => {
            return None;
        },
    };
    let (u, j2) = match parse_user_at(s, j1) {
        Some(p) => p,
        None => {
            return None;
        },
    };
    let j3 = match expect_lit(s, j2, "}") {
        Some(j) => j,
        None => {
            return None;
        },
    };
    Some((Some(EnvelopeData { user: u }), j3))
}

/// One error object at position `i`: its message.
fn parse_error_at(s: &str, i: usize) -> (r: Option<(String, usize)>)
    requires
        i <= s@.len(),
    ensures
        r matches Some(p) ==> parse_error_obj(s@, i as int) == Some((p.0@, p.1 as int)) && i < p.1
            <= s@.len(),
        r is None ==> parse_error_obj(s@, i as int) is None,
{
    let j1 = match expect_lit(s, i, "{\"message\":") {
        Some(j) => j,
        None => {
            return None;
        },
    };
    let (m, j2) = match parse_string_at(s, j1) {
        Some(p) => p,
        None => {
            return None;
        },
    };
    let j3 = match expect_lit(s, j2, "}") {
        Some(j) => j,
        None => {
            return None;
        },
    };
    Some((m, j3))
}

/// The comma-separated error objects from position `i`.
fn parse_errs_at(s: &str, i: usize) -> (r: Option<(Vec<String>, usize)>)
    requires
        i <= s@.len(),
    ensures
        r matches Some(p) ==> parse_errs_rec(s@, i as int, Seq::empty()) == Some(
            (messages_view(p.0@), p.1 as int),
        ) && i < p.1 <= s@.len(),
        r is None ==> parse_errs_rec(s@, i as int, Seq::empty()) is None,
{
    let n = s.unicode_len();
    let mut out: Vec<String> = Vec::new();
    let mut j: usize = i;
    proof {
        assert(messages_view(out@) =~= Seq::<Seq<char>>::empty());
    }
    loop
        invariant
            i <= j <= n,
            n == s@.len(),
            parse_errs_rec(s@, i as int, Seq::empty()) == parse_errs_rec(
                s@,
                j as int,
                messages_view(out@),
            ),
        decreases n - j,
    {
        let (m, j2) = match parse_error_at(s, j) {
            Some(p) => p,
            None => {
                return None;
            },
        };
        let ghost old_out = out@;
        out.push(m);
        proof {
            assert(messages_view(out@) =~= messages_view(old_out).push(m@));
        }
        if j2 < n && s.get_char(j2) == ',' {
            j = j2 + 1;
        } else {
            return Some((out, j2));
        }
    }
}

/// An `errors` value at position `i`.
fn parse_errors_at(s: &str, i: usize) -> (r: Option<(Option<Vec<String>>, usize)>)
    requires
        i <= s@.len(),
    ensures
        r matches Some(p) ==> parse_errors_value(s@, i as int) == Some(
            (
                match p.0 {
                    Some(v) => Some(messages_view(v@)),
                    None => None,
                },
                p.1 as int,
            ),
        ) && p.1 <= s@.len(),
        r is None ==> parse_errors_value(s@, i as int) is None,
{
    let n = s.unicode_len();
    match expect_lit(s, i, "null") {
        Some(j) => {
            return Some((None, j));
        },
        None => {},
    }
    let j1 = match expect_lit(s, i, "[") {
        Some(j) => j,
        None => {
            return None;
        },
    };
    if j1 < n && s.get_char(j1) == ']' {
        let out: Vec<String> = Vec::new();
        proof {
            assert(messages_view(out@) =~= Seq::<Seq<char>>::empty());
        }
        return Some((Some(out), j1 + 1));
    }
    let (ms, j2) = match parse_errs_at(s, j1) {
        Some(p) => p,
        None => {
            return None;
        },
    };
    let j3 = match expect_lit(s, j2, "]") {
        Some(j) => j,
        None => {
            return None;
        },
    };
    Some((Some(ms), j3))
}

/// Decode a whole response envelope, or `None` when the text is not of
/// the supported envelope subset.
pub fn parse_envelope_text(s: &str) -> (r: Option<Envelope>)
    ensures
        r matches Some(env) ==> parse_envelope(s@) == Some(envelope_view(env)),
        r is None ==> parse_envelope(s@) is None,
{
    let n = s.unicode_len();
    match expect_lit(s, 0, "{\"data\":") {
        Some(j1) => {
            let (d, j2) = match parse_data_at(s, j1) {
                Some(p) => p,
                None => {
                    return None;
                },
            };
            match expect_lit(s, j2, ",\"errors\":") {
                Some(j3) => {
                    let (e, j4) = match parse_errors_at(s, j3) {
                        Some(p) => p,
                        None => {
                            return None;
                        },
                    };
                    match expect_lit(s, j4, "}") {
                        Some(j5) => {
                            if j5 == n {
                                Some(Envelope { data: d, errors: e })
                            } else {
                                None
                            }
                        },
                        None => None,
                    }
                },
                None => {
                    match expect_lit(s, j2, "}") {
                        Some(j5) => {
                            if j5 == n {
                                Some(Envelope { data: d, errors: None })
                            } else {
                                None
                            }
                        },
                        None => None,
                    }
                },
            }
        },
        None => {
            match expect_lit(s, 0, "{\"errors\":") {
                Some(j1) => {
                    let (e, j2) = match parse_errors_at(s, j1) {
                        Some(p) => p,
                        None => {
                            return None;
                        },
                    };
                    match expect_lit(s, j2, ",\"data\":") {
                        Some(j3) => {
                            let (d, j4) = match parse_data_at(s, j3) {
                                Some(p) => p,
                                None => {
                                    return None;
                                },
                            };
                            match expect_lit(s, j4, "}") {
                                Some(j5) => {
                                    if j5 == n {
                                        Some(Envelope { data: d, errors: e })
                                    } else {
                                        None
                                    }
                                },
                                None => None,
                            }
                        },
                        None => {
                            match expect_lit(s, j2, "}") {
                                Some(j5) => {
                                    if j5 == n {
                                        Some(Envelope { data: None, errors: e })
                                    } else {
                                        None
                                    }
                                },
                                None => None,
                            }
                        },
                    }
                },
                None => {
                    match expect_lit(s, 0, "{}") {
                        Some(j) => {
                            if j == n {
                                Some(Envelope { data: None, errors: None })
                            } else {
                                None
                            }
                        },
                        None => None,
                    }
                },
            }
        },
    }
}

proof fn lemma_rt_str_rec(s: Seq<char>, i: int, r: Seq<char>, acc: Seq<char>)
    requires
        0 <= i,
        plain_text(r),
        i + r.len() + 1 <= s.len(),
        s.subrange(i, i + r.len() as int) == r,
        s[i + r.len()] == '"',
    ensures
        parse_str_rec(s, i, acc) == Some((acc + r, i + r.len() + 1)),
    decreases r.len(),
{
    if r.len() == 0 {
        assert(s[i] == '"');
        assert(acc + r =~= acc);
    } else {
        assert(s[i] == r[0]);
        assert(r[0] != '"' && r[0] != '\\');
        let r2 = r.subrange(1, r.len() as int);
        assert(s.subrange(i + 1, i + 1 + r2.len() as int) =~= r2);
        lemma_rt_str_rec(s, i + 1, r2, acc + seq![s[i]]);
        assert((acc + seq![s[i]]) + r2 =~= acc + r);
    }
}

// ------------------------------------------------------------------
// Round trip: parsing a serialized calendar yields it back
// ------------------------------------------------------------------

/// A day whose texts fit inside string literals of the supported subset.
pub open spec fn day_plain(d: DayView) -> bool {
    plain_text(d.date) && plain_text(d.color)
}

/// A week of plain days.
pub open spec fn week_plain(w: WeekView) -> bool {
    forall|k: int| 0 <= k < w.days.len() ==> day_plain(#[trigger] w.days[k])
}

/// A calendar of plain weeks.
pub open spec fn calendar_plain(c: CalendarView) -> bool {
    forall|k: int| 0 <= k < c.weeks.len() ==> week_plain(#[trigger] c.weeks[k])
}

proof fn lemma_split_subrange(s: Seq<char>, i: int, a: Seq<char>, b: Seq<char>)
    requires
        0 <= i,
        i + a.len() + b.len() <= s.len(),
        s.subrange(i, i + a.len() + b.len()) == a + b,
    ensures
        s.subrange(i, i + a.len() as int) == a,
        s.subrange(i + a.len() as int, i + a.len() + b.len()) == b,
{
    assert(s.subrange(i, i + a.len() as int) =~= a) by {
        assert forall|k: int| 0 <= k < a.len() implies s[i + k] == a[k] by {
            assert(s.subrange(i, i + a.len() + b.len())[k] == s[i + k]);
            assert((a + b)[k] == a[k]);
        }
    }
    assert(s.subrange(i + a.len() as int, i + a.len() + b.len()) =~= b) by {
        assert forall|k: int| 0 <= k < b.len() implies s[i + a.len() + k] == b[k] by {
            assert(s.subrange(i, i + a.len() + b.len())[a.len() + k] == s[i + a.len() + k]);
            assert((a + b)[a.len() + k] == b[k]);
        }
    }
}

#[verifier::rlimit(50)]
proof fn lemma_rt_day(s: Seq<char>, i: int, d: DayView)
    requires
        day_plain(d),
        0 <= i,
        i + ser_day(d).len() <= s.len(),
        s.subrange(i, i + ser_day(d).len() as int) == ser_day(d),
    ensures
        parse_day(s, i) == Some((d, i + ser_day(d).len())),
{
    reveal_strlit("{\"date\":");
    reveal_strlit(",\"contributionCount\":");
    reveal_strlit(",\"color\":");
    reveal_strlit("}");
    let l1 = "{\"date\":"@;
    let sd = ser_string(d.date);
    let l2 = ",\"contributionCount\":"@;
    let nn = ser_u32(d.count as int);
    let l3 = ",\"color\":"@;
    let sc = ser_string(d.color);
    let l4 = "}"@;
    let a5 = l1 + sd + l2 + nn + l3 + sc;
    lemma_split_subrange(s, i, a5, l4);
    let a4 = l1 + sd + l2 + nn + l3;
    lemma_split_subrange(s, i, a4, sc);
    let a3 = l1 + sd + l2 + nn;
    lemma_split_subrange(s, i, a3, l3);
    let a2 = l1 + sd + l2;
    lemma_split_subrange(s, i, a2, nn);
    let a1 = l1 + sd;
    lemma_split_subrange(s, i, a1, l2);
    lemma_split_subrange(s, i, l1, sd);
    let o1 = i + l1.len() as int;
    let o2 = o1 + sd.len() as int;
    let o3 = o2 + l2.len() as int;
    let o4 = o3 + nn.len() as int;
    let o5 = o4 + l3.len() as int;
    let o6 = o5 + sc.len() as int;
    assert(parse_lit(s, i, l1) == Some(o1));
    lemma_rt_string(s, o1, d.date);
    assert(parse_string(s, o1) == Some((d.date, o2)));
    assert(parse_lit(s, o2, l2) == Some(o3));
    assert(s[o4] == ',') by {
        assert(s.subrange(o4, o4 + l3.len() as int)[0] == s[o4]);
    }
    lemma_rt_u32(s, o3, d.count);
    assert(parse_u32(s, o3) == Some((d.count, o4)));
    assert(parse_lit(s, o4, l3) == Some(o5));
    lemma_rt_string(s, o5, d.color);
    assert(parse_string(s, o5) == Some((d.color, o6)));
    assert(parse_lit(s, o6, l4) == Some(o6 + 1));
    assert(o6 + 1 == i + ser_day(d).len());
}

proof fn lemma_rt_days(s: Seq<char>, i: int, ds: Seq<DayView>, k: int, acc: Seq<DayView>)
    requires
        0 <= k < ds.len(),
        forall|m: int| 0 <= m < ds.len() ==> day_plain(#[trigger] ds[m]),
        0 <= i,
        i + ser_days_from(ds, k).len() < s.len(),
        s.subrange(i, i + ser_days_from(ds, k).len() as int) == ser_days_from(ds, k),
        s[i + ser_days_from(ds, k).len()] != ',',
    ensures
        parse_days_rec(s, i, acc) == Some(
            (acc + ds.subrange(k, ds.len() as int), i + ser_days_from(ds, k).len()),
        ),
    decreases ds.len() - k,
{
    if k == ds.len() - 1 {
        lemma_rt_day(s, i, ds[k]);
        let e = i + ser_day(ds[k]).len() as int;
        assert(parse_days_rec(s, i, acc) == Some((acc.push(ds[k]), e)));
        assert(acc.push(ds[k]) =~= acc + ds.subrange(k, ds.len() as int));
    } else {
        let dk = ser_day(ds[k]);
        let rest = ser_days_from(ds, k + 1);
        let a = dk + seq![','];
        lemma_split_subrange(s, i, a, rest);
        lemma_split_subrange(s, i, dk, seq![',']);
        lemma_rt_day(s, i, ds[k]);
        let e1 = i + dk.len() as int;
        assert(s[e1] == ',') by {
            assert(s.subrange(e1, e1 + 1)[0] == s[e1]);
        }
        lemma_rt_days(s, e1 + 1, ds, k + 1, acc.push(ds[k]));
        assert(acc.push(ds[k]) + ds.subrange(k + 1, ds.len() as int) =~= acc + ds.subrange(
            k,
            ds.len() as int,
        ));
    }
}

proof fn lemma_rt_week(s: Seq<char>, i: int, w: WeekView)
    requires
        week_plain(w),
        0 <= i,
        i + ser_week(w).len() <= s.len(),
        s.subrange(i, i + ser_week(w).len() as int) == ser_week(w),
    ensures
        parse_week(s, i) == Some((w, i + ser_week(w).len())),
{
    reveal_strlit("{\"contributionDays\":[");
    reveal_strlit("]}");
    reveal_strlit("{\"date\":");
    let l5 = "{\"contributionDays\":["@;
    let body = ser_days_from(w.days, 0);
    let l6 = "]}"@;
    lemma_split_subrange(s, i, l5 + body, l6);
    lemma_split_subrange(s, i, l5, body);
    let j1 = i + l5.len() as int;
    let e = j1 + body.len() as int;
    assert(parse_lit(s, i, l5) == Some(j1));
    assert(s[e] == ']') by {
        assert(s.subrange(e, e + l6.len() as int)[0] == s[e]);
    }
    if w.days.len() == 0 {
        assert(body =~= Seq::<char>::empty());
        assert(s[j1] == ']');
        assert(parse_lit(s, j1, l6) == Some(j1 + 2)) by {
            assert(s.subrange(j1, j1 + l6.len() as int) == l6);
        }
        assert(w.days =~= Seq::<DayView>::empty());
    } else {
        assert(s[j1] == '{') by {
            assert(s.subrange(j1, e)[0] == s[j1]);
            assert(body[0] == ser_day(w.days[0])[0]);
            assert(ser_day(w.days[0])[0] == '{');
        }
        lemma_rt_days(s, j1, w.days, 0, Seq::empty());
        assert(Seq::<DayView>::empty() + w.days.subrange(0, w.days.len() as int) =~= w.days);
        assert(parse_lit(s, e, l6) == Some(e + 2)) by {
            assert(s.subrange(e, e + l6.len() as int) == l6);
        }
    }
}

proof fn lemma_rt_weeks(s: Seq<char>, i: int, ws: Seq<WeekView>, k: int, acc: Seq<WeekView>)
    requires
        0 <= k < ws.len(),
        forall|m: int| 0 <= m < ws.len() ==> week_plain(#[trigger] ws[m]),
        0 <= i,
        i + ser_weeks_from(ws, k).len() < s.len(),
        s.subrange(i, i + ser_weeks_from(ws, k).len() as int) == ser_weeks_from(ws, k),
        s[i + ser_weeks_from(ws, k).len()] != ',',
    ensures
        parse_weeks_rec(s, i, acc) == Some(
            (acc + ws.subrange(k, ws.len() as int), i + ser_weeks_from(ws, k).len()),
        ),
    decreases ws.len() - k,
{
    if k == ws.len() - 1 {
        lemma_rt_week(s, i, ws[k]);
        let e = i + ser_week(ws[k]).len() as int;
        assert(parse_weeks_rec(s, i, acc) == Some((acc.push(ws[k]), e)));
        assert(acc.push(ws[k]) =~= acc + ws.subrange(k, ws.len() as int));
    } else {
        let wk = ser_week(ws[k]);
        let rest = ser_weeks_from(ws, k + 1);
        let a = wk + seq![','];
        lemma_split_subrange(s, i, a, rest);
        lemma_split_subrange(s, i, wk, seq![',']);
        lemma_rt_week(s, i, ws[k]);
        let e1 = i + wk.len() as int;
        assert(s[e1] == ',') by {
            assert(s.subrange(e1, e1 + 1)[0] == s[e1]);
        }
        lemma_rt_weeks(s, e1 + 1, ws, k + 1, acc.push(ws[k]));
        assert(acc.push(ws[k]) + ws.subrange(k + 1, ws.len() as int) =~= acc + ws.subrange(
            k,
            ws.len() as int,
        ));
    }
}

/// Law: serializing a calendar and parsing the result yields the calendar
/// back unchanged — the number of weeks, the days of each week, and every
/// day's date, count and color — consuming the text exactly.
pub proof fn lemma_calendar_round_trip(c: CalendarView)
    requires
        calendar_plain(c),
    ensures
        parse_calendar(ser_calendar(c), 0) == Some((c, ser_calendar(c).len() as int)),
{
    reveal_strlit("{\"totalContributions\":");
    reveal_strlit(",\"weeks\":[");
    reveal_strlit("]}");
    reveal_strlit("{\"contributionDays\":[");
    let s = ser_calendar(c);
    let p1 = "{\"totalContributions\":"@;
    let nn = ser_u32(c.total as int);
    let p2 = ",\"weeks\":["@;
    let body = ser_weeks_from(c.weeks, 0);
    let p3 = "]}"@;
    assert(s.subrange(0, s.len() as int) =~= s);
    lemma_split_subrange(s, 0, p1 + nn + p2 + body, p3);
    lemma_split_subrange(s, 0, p1 + nn + p2, body);
    lemma_split_subrange(s, 0, p1 + nn, p2);
    lemma_split_subrange(s, 0, p1, nn);
    let j1 = p1.len() as int;
    let j2 = j1 + nn.len() as int;
    let j3 = j2 + p2.len() as int;
    let e = j3 + body.len() as int;
    assert(parse_lit(s, 0, p1) == Some(j1));
    assert(s[j2] == ',') by {
        assert(s.subrange(j2, j2 + p2.len() as int)[0] == s[j2]);
    }
    lemma_rt_u32(s, j1, c.total);
    assert(parse_u32(s, j1) == Some((c.total, j2)));
    assert(parse_lit(s, j2, p2) == Some(j3));
    assert(s[e] == ']') by {
        assert(s.subrange(e, e + p3.len() as int)[0] == s[e]);
    }
    if c.weeks.len() == 0 {
        assert(body =~= Seq::<char>::empty());
        assert(s[j3] == ']');
        assert(parse_lit(s, j3, p3) == Some(j3 + 2)) by {
            assert(s.subrange(j3, j3 + p3.len() as int) == p3);
        }
        assert(c.weeks =~= Seq::<WeekView>::empty());
        assert(j3 + 2 == s.len());
    } else {
        assert(s[j3] == '{') by {
            assert(s.subrange(j3, e)[0] == s[j3]);
            assert(body[0] == ser_week(c.weeks[0])[0]);
            assert(ser_week(c.weeks[0])[0] == '{');
        }
        lemma_rt_weeks(s, j3, c.weeks, 0, Seq::empty());
        assert(Seq::<WeekView>::empty() + c.weeks.subrange(0, c.weeks.len() as int) =~= c.weeks);
        assert(parse_lit(s, e, p3) == Some(e + 2)) by {
            assert(s.subrange(e, e + p3.len() as int) == p3);
        }
        assert(e + 2 == s.len());
    }
}

// ------------------------------------------------------------------
// The serializer
// ------------------------------------------------------------------

fn digit_str(d: u32) -> (r: &'static str)
    requires
        d < 10,
    ensures
        r@ == seq![digit_char(d as int)],
{
    proof {
        reveal_strlit("0");
        reveal_strlit("1");
        reveal_strlit("2");
        reveal_strlit("3");
        reveal_strlit("4");
        reveal_strlit("5");
        reveal_strlit("6");
        reveal_strlit("7");
        reveal_strlit("8");
        reveal_strlit("9");
        assert("0"@ =~= seq![digit_char(0)]);
        assert("1"@ =~= seq![digit_char(1)]);
        assert("2"@ =~= seq![digit_char(2)]);
        assert("3"@ =~= seq![digit_char(3)]);
        assert("4"@ =~= seq![digit_char(4)]);
        assert("5"@ =~= seq![digit_char(5)]);
        assert("6"@ =~= seq![digit_char(6)]);
        assert("7"@ =~= seq![digit_char(7)]);
        assert("8"@ =~= seq![digit_char(8)]);
        assert("9"@ =~= seq![digit_char(9)]);
    }
    if d == 0 {
        "0"
    } else if d == 1 {
        "1"
    } else if d == 2 {
        "2"
    } else if d == 3 {
        "3"
    } else if d == 4 {
        "4"
    } else if d == 5 {
        "5"
    } else if d == 6 {
        "6"
    } else if d == 7 {
        "7"
    } else if d == 8 {
        "8"
    } else {
        "9"
    }
}

/// Append the decimal spelling of `n`.
fn append_u32(out: &mut String, n: u32)
    ensures
        final(out)@ == old(out)@ + ser_u32(n as int),
    decreases n,
{
    if n < 10 {
        out.append(digit_str(n));
    } else {
        append_u32(out, n / 10);
        out.append(digit_str(n % 10));
        proof {
            assert(old(out)@ + (ser_u32(n as int / 10) + seq![digit_char(n as int % 10)]) =~= (old(
                out,
            )@ + ser_u32(n as int / 10)) + seq![digit_char(n as int % 10)]);
        }
    }
}

/// Append the serialized form of one day.
fn append_day(out: &mut String, d: &ContributionDay)
    ensures
        final(out)@ == old(out)@ + ser_day(d@),
{
    out.append("{\"date\":\"");
    out.append(d.date.as_str());
    out.append("\",\"contributionCount\":");
    append_u32(out, d.contribution_count);
    out.append(",\"color\":\"");
    out.append(d.color.as_str());
    out.append("\"}");
    proof {
        reveal_strlit("{\"date\":\"");
        reveal_strlit("{\"date\":");
        reveal_strlit("\",\"contributionCount\":");
        reveal_strlit(",\"contributionCount\":");
        reveal_strlit(",\"color\":\"");
        reveal_strlit(",\"color\":");
        reveal_strlit("\"}");
        reveal_strlit("}");
        assert(final(out)@ =~= old(out)@ + ser_day(d@));
    }
}

/// Append the days of a week from index `k` on, comma-separated.
fn append_days(out: &mut String, days: &Vec<ContributionDay>, k: usize)
    requires
        k <= days@.len(),
    ensures
        final(out)@ == old(out)@ + ser_days_from(days_view(days@), k as int),
    decreases days@.len() - k,
{
    if k < days.len() {
        append_day(out, &days[k]);
        if k + 1 < days.len() {
            out.append(",");
            append_days(out, days, k + 1);
            proof {
                reveal_strlit(",");
                assert(final(out)@ =~= old(out)@ + ser_days_from(days_view(days@), k as int));
            }
        } else {
            proof {
                assert(ser_days_from(days_view(days@), k as int) == ser_day(days@[k as int]@));
            }
        }
    } else {
        proof {
            assert(old(out)@ + ser_days_from(days_view(days@), k as int) =~= old(out)@);
        }
    }
}

/// Append the serialized form of one week.
fn append_week(out: &mut String, w: &Week)
    ensures
        final(out)@ == old(out)@ + ser_week(w@),
{
    out.append("{\"contributionDays\":[");
    append_days(out, &w.contribution_days, 0);
    out.append("]}");
    proof {
        reveal_strlit("{\"contributionDays\":[");
        reveal_strlit("]}");
        assert(final(out)@ =~= old(out)@ + ser_week(w@));
    }
}

/// Append the weeks of a calendar from index `k` on, comma-separated.
fn append_weeks(out: &mut String, weeks: &Vec<Week>, k: usize)
    requires
        k <= weeks@.len(),
    ensures
        final(out)@ == old(out)@ + ser_weeks_from(weeks_view(weeks@), k as int),
    decreases weeks@.len() - k,
{
    if k < weeks.len() {
        append_week(out, &weeks[k]);
        if k + 1 < weeks.len() {
            out.append(",");
            append_weeks(out, weeks, k + 1);
            proof {
                reveal_strlit(",");
                assert(final(out)@ =~= old(out)@ + ser_weeks_from(weeks_view(weeks@), k as int));
            }
        } else {
            proof {
                assert(ser_weeks_from(weeks_view(weeks@), k as int) == ser_week(weeks@[k as int]@));
            }
        }
    } else {
        proof {
            assert(old(out)@ + ser_weeks_from(weeks_view(weeks@), k as int) =~= old(out)@);
        }
    }
}

/// Serialize a calendar into the wire form that the decoder accepts.
pub fn serialize_calendar(cal: &ContributionCalendar) -> (r: String)
    ensures
        r@ == ser_calendar(cal@),
{
    let mut out = String::new();
    out.append("{\"totalContributions\":");
    append_u32(&mut out, cal.total_contributions);
    out.append(",\"weeks\":[");
    append_weeks(&mut out, &cal.weeks, 0);
    out.append("]}");
    proof {
        reveal_strlit("{\"totalContributions\":");
        reveal_strlit(",\"weeks\":[");
        reveal_strlit("]}");
        assert(out@ =~= ser_calendar(cal@));
    }
    out
}

} // verus!
