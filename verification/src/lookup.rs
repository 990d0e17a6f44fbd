//! Today's entry: scan the calendar in stored order and report the first
//! day whose date equals today, or that no entry for today exists.

use vstd::prelude::*;
use crate::model::{CalendarView, ContributionCalendar, WeekView};

verus! {

/// The count of the first day of `w`, in stored order, whose date is
/// `today`; `None` when the week has no such day.
pub open spec fn week_first_match(w: WeekView, today: Seq<char>) -> Option<u32>
    decreases w.days.len(),
{
    if w.days.len() == 0 {
        None
    } else if w.days[0].date == today {
        Some(w.days[0].count)
    } else {
        week_first_match(WeekView { days: w.days.subrange(1, w.days.len() as int) }, today)
    }
}

/// The count of the first day of the calendar, scanning weeks in stored
/// order and days within each week in stored order, whose date is
/// `today`; `None` when no day matches.
pub open spec fn calendar_first_match(c: CalendarView, today: Seq<char>) -> Option<u32>
    decreases c.weeks.len(),
{
    if c.weeks.len() == 0 {
        None
    } else if week_first_match(c.weeks[0], today) is Some {
        week_first_match(c.weeks[0], today)
    } else {
        calendar_first_match(
            CalendarView { total: c.total, weeks: c.weeks.subrange(1, c.weeks.len() as int) },
            today,
        )
    }
}

proof fn lemma_week_match_from(w: WeekView, today: Seq<char>, j: int)
    requires
        0 <= j <= w.days.len(),
        forall|k: int| 0 <= k < j ==> (#[trigger] w.days[k]).date != today,
    ensures
        j == w.days.len() ==> week_first_match(w, today) is None,
        j < w.days.len() && w.days[j].date == today ==> week_first_match(w, today) == Some(
            w.days[j].count,
        ),
    decreases j,
{
    if j == 0 {
    } else {
        let t = WeekView { days: w.days.subrange(1, w.days.len() as int) };
        assert(w.days[0].date != today);
        assert(week_first_match(w, today) == week_first_match(t, today));
        assert(forall|k: int| 0 <= k < j - 1 ==> (#[trigger] t.days[k]).date != today);
        lemma_week_match_from(t, today, j - 1);
    }
}

proof fn lemma_calendar_match_from(c: CalendarView, today: Seq<char>, j: int)
    requires
        0 <= j <= c.weeks.len(),
        forall|k: int| 0 <= k < j ==> week_first_match(#[trigger] c.weeks[k], today) is None,
    ensures
        j == c.weeks.len() ==> calendar_first_match(c, today) is None,
        j < c.weeks.len() && week_first_match(c.weeks[j], today) is Some ==> calendar_first_match(
            c,
            today,
        ) == week_first_match(c.weeks[j], today),
    decreases j,
{
    if j == 0 {
    } else {
        let t = CalendarView { total: c.total, weeks: c.weeks.subrange(1, c.weeks.len() as int) };
        assert(week_first_match(c.weeks[0], today) is None);
        assert(calendar_first_match(c, today) == calendar_first_match(t, today));
        assert(forall|k: int|
            0 <= k < j - 1 ==> week_first_match(#[trigger] t.weeks[k], today) is None);
        lemma_calendar_match_from(t, today, j - 1);
    }
}

/// Find today's entry: the first day, scanning weeks and then days in
/// stored order, whose date equals `today`; its count, or `None` when the
/// calendar holds no entry for today (an expected outcome, not an error).
pub fn today_contributions(cal: &ContributionCalendar, today: &String) -> (r: Option<u32>)
    ensures
        r == calendar_first_match(cal@, today@),
{
    let mut wi: usize = 0;
    while wi < cal.weeks.len()
        invariant
            wi <= cal.weeks@.len(),
            forall|k: int|
                0 <= k < wi ==> week_first_match(#[trigger] cal@.weeks[k], today@) is None,
        decreases cal.weeks@.len() - wi,
    {
        let week = &cal.weeks[wi];
        let ghost wv = cal@.weeks[wi as int];
        assert(wv == week@);
        let mut di: usize = 0;
        while di < week.contribution_days.len()
            invariant
                di <= week.contribution_days@.len(),
                wv == week@,
                wi < cal.weeks@.len(),
                cal@.weeks.len() == cal.weeks@.len(),
                wv == cal@.weeks[wi as int],
                forall|k: int|
                    0 <= k < wi ==> week_first_match(#[trigger] cal@.weeks[k], today@) is None,
                forall|k: int| 0 <= k < di ==> (#[trigger] wv.days[k]).date != today@,
            decreases week.contribution_days@.len() - di,
        {
            let day = &week.contribution_days[di];
            assert(wv.days[di as int] == day@);
            if day.date == *today {
                proof {
                    assert(wv.days.len() == week.contribution_days@.len());
                    lemma_week_match_from(wv, today@, di as int);
                    assert(cal@.weeks.len() == cal.weeks@.len());
                    assert(cal@.weeks[wi as int] == wv);
                    lemma_calendar_match_from(cal@, today@, wi as int);
                }
                return Some(day.contribution_count);
            }
            di = di + 1;
        }
        proof {
            assert(wv.days.len() == week.contribution_days@.len());
            lemma_week_match_from(wv, today@, week.contribution_days@.len() as int);
            assert(cal@.weeks[wi as int] == wv);
        }
        wi = wi + 1;
    }
    proof {
        assert(cal@.weeks.len() == cal.weeks@.len());
        lemma_calendar_match_from(cal@, today@, cal.weeks@.len() as int);
    }
    None
}

} // verus!
