//! The calendar data model: a calendar of weeks of days, as reported by the
//! contribution service, together with its mathematical view.

use vstd::prelude::*;

verus! {

/// One day of the calendar: its date (`YYYY-MM-DD`), the number of
/// contributions reported for it, and its display color string
/// (six hex digits, optionally prefixed with `#`).
#[derive(Clone)]
pub struct ContributionDay {
    pub date: String,
    pub contribution_count: u32,
    pub color: String,
}

/// One week: its days in weekday order.
#[derive(Clone)]
pub struct Week {
    pub contribution_days: Vec<ContributionDay>,
}

/// The full calendar: the independently reported total, and the weeks in
/// chronological order (oldest first). Replaced wholesale on each
/// successful fetch; never partially mutated.
#[derive(Clone)]
pub struct ContributionCalendar {
    pub total_contributions: u32,
    pub weeks: Vec<Week>,
}

/// The `data` member of the response envelope.
pub struct EnvelopeData {
    pub user: Option<ContributionCalendar>,
}

/// The decoded response envelope: optional `data`, optional list of
/// server-reported error messages.
pub struct Envelope {
    pub data: Option<EnvelopeData>,
    pub errors: Option<Vec<String>>,
}

/// Mathematical view of a day.
pub ghost struct DayView {
    pub date: Seq<char>,
    pub count: u32,
    pub color: Seq<char>,
}

/// Mathematical view of a week.
pub ghost struct WeekView {
    pub days: Seq<DayView>,
}

/// Mathematical view of a calendar.
pub ghost struct CalendarView {
    pub total: u32,
    pub weeks: Seq<WeekView>,
}

/// The views of a sequence of days.
pub open spec fn days_view(ds: Seq<ContributionDay>) -> Seq<DayView> {
    Seq::new(ds.len(), |i: int| ds[i]@)
}

/// The views of a sequence of weeks.
pub open spec fn weeks_view(ws: Seq<Week>) -> Seq<WeekView> {
    Seq::new(ws.len(), |i: int| ws[i]@)
}

/// The views of a sequence of message strings.
pub open spec fn messages_view(es: Seq<String>) -> Seq<Seq<char>> {
    Seq::new(es.len(), |i: int| es[i]@)
}

impl View for ContributionDay {
    type V = DayView;

    open spec fn view(&self) -> DayView {
        DayView { date: self.date@, count: self.contribution_count, color: self.color@ }
    }
}

impl View for Week {
    type V = WeekView;

    open spec fn view(&self) -> WeekView {
        WeekView { days: days_view(self.contribution_days@) }
    }
}

impl View for ContributionCalendar {
    type V = CalendarView;

    open spec fn view(&self) -> CalendarView {
        CalendarView { total: self.total_contributions, weeks: weeks_view(self.weeks@) }
    }
}

} // verus!
