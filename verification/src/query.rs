//! Transient query state of the player index: the time window used to filter
//! encounters, the sort key and direction of the listing, and the severity
//! banding applied to encounter counts.

use vstd::prelude::*;

verus! {

/// Direction of an ordering.
#[derive(Debug, Clone, Copy, PartialEq, Eq, Structural)]
pub enum SortOrder {
    Asc,
    Desc,
}

impl SortOrder {
    /// The direction after one toggle.
    pub open spec fn spec_toggle(self) -> SortOrder {
        match self {
            SortOrder::Asc => SortOrder::Desc,
            SortOrder::Desc => SortOrder::Asc,
        }
    }

    /// Short marker shown next to the column that drives the ordering.
    pub fn icon(&self) -> (r: &'static str)
        ensures
            *self is Asc ==> r@ == "asc"@,
            *self is Desc ==> r@ == "desc"@,
    {
        match self {
            SortOrder::Asc => "asc",
            SortOrder::Desc => "desc",
        }
    }

    /// Flip the direction.
    pub fn toggle(&mut self)
        ensures
            *final(self) == old(self).spec_toggle(),
    {
        match *self {
            SortOrder::Asc => {
                *self = SortOrder::Desc;
            },
            SortOrder::Desc => {
                *self = SortOrder::Asc;
            },
        }
    }
}

/// Sort key of the player listing, together with its direction.
#[derive(Debug, Clone, Copy, PartialEq, Eq, Structural)]
pub enum SortedBy {
    Name(SortOrder),
    Clan(SortOrder),
    LastEncountered(SortOrder),
    TimesEncountered(SortOrder),
    TimesEncounteredInTimeRange(SortOrder),
}

impl SortedBy {
    /// True when `self` and `other` select the same column, whatever the
    /// direction.
    pub open spec fn same_key(self, other: SortedBy) -> bool {
        match (self, other) {
            (SortedBy::Name(_), SortedBy::Name(_)) => true,
            (SortedBy::Clan(_), SortedBy::Clan(_)) => true,
            (SortedBy::LastEncountered(_), SortedBy::LastEncountered(_)) => true,
            (SortedBy::TimesEncountered(_), SortedBy::TimesEncountered(_)) => true,
            (SortedBy::TimesEncounteredInTimeRange(_), SortedBy::TimesEncounteredInTimeRange(_)) => true,
            _ => false,
        }
    }

    /// The direction carried by the key.
    pub open spec fn spec_order(self) -> SortOrder {
        match self {
            SortedBy::Name(sort_order) => sort_order,
            SortedBy::Clan(sort_order) => sort_order,
            SortedBy::LastEncountered(sort_order) => sort_order,
            SortedBy::TimesEncountered(sort_order) => sort_order,
            SortedBy::TimesEncounteredInTimeRange(sort_order) => sort_order,
        }
    }

    /// `self` with its direction replaced by `ord`.
    pub open spec fn spec_with_order(self, ord: SortOrder) -> SortedBy {
        match self {
            SortedBy::Name(_) => SortedBy::Name(ord),
            SortedBy::Clan(_) => SortedBy::Clan(ord),
            SortedBy::LastEncountered(_) => SortedBy::LastEncountered(ord),
            SortedBy::TimesEncountered(_) => SortedBy::TimesEncountered(ord),
            SortedBy::TimesEncounteredInTimeRange(_) => SortedBy::TimesEncounteredInTimeRange(ord),
        }
    }

    /// The state after the user selects `new`: selecting the column already
    /// in charge flips the direction; selecting another column installs it
    /// with the direction it was selected with (ascending in the listing).
    pub open spec fn spec_transition_to(self, new: SortedBy) -> SortedBy {
        if self.same_key(new) {
            self.spec_with_order(self.spec_order().spec_toggle())
        } else {
            new
        }
    }

    /// Column label of the key.
    pub fn description(&self) -> (r: &'static str)
        ensures
            *self is Name ==> r@ == "Name"@,
            *self is Clan ==> r@ == "Clan"@,
            *self is LastEncountered ==> r@ == "Last Encountered"@,
            *self is TimesEncountered ==> r@ == "Times Encountered"@,
            *self is TimesEncounteredInTimeRange ==> r@ == "Times Encountered in Time Range"@,
    {
        match self {
            SortedBy::Name(_) => "Name",
            SortedBy::Clan(_) => "Clan",
            SortedBy::LastEncountered(_) => "Last Encountered",
            SortedBy::TimesEncountered(_) => "Times Encountered",
            SortedBy::TimesEncounteredInTimeRange(_) => "Times Encountered in Time Range",
        }
    }

    /// Apply a user selection; see [`SortedBy::spec_transition_to`].
    pub fn transition_to(&mut self, new: SortedBy)
        ensures
            *final(self) == old(self).spec_transition_to(new),
    {
        match (*self, new) {
            (SortedBy::Name(sort_order), SortedBy::Name(_)) => {
                *self = SortedBy::Name(sort_order.toggled());
            },
            (SortedBy::Clan(sort_order), SortedBy::Clan(_)) => {
                *self = SortedBy::Clan(sort_order.toggled());
            },
            (SortedBy::LastEncountered(sort_order), SortedBy::LastEncountered(_)) => {
                *self = SortedBy::LastEncountered(sort_order.toggled());
            },
            (SortedBy::TimesEncountered(sort_order), SortedBy::TimesEncountered(_)) => {
                *self = SortedBy::TimesEncountered(sort_order.toggled());
            },
            (SortedBy::TimesEncounteredInTimeRange(sort_order), SortedBy::TimesEncounteredInTimeRange(_)) => {
                *self = SortedBy::TimesEncounteredInTimeRange(sort_order.toggled());
            },
            (_, other) => {
                *self = other;
            },
        }
    }

    /// The direction currently in force.
    pub fn order(&self) -> (r: SortOrder)
        ensures
            r == self.spec_order(),
    {
        match self {
            SortedBy::Name(sort_order) => *sort_order,
            SortedBy::Clan(sort_order) => *sort_order,
            SortedBy::LastEncountered(sort_order) => *sort_order,
            SortedBy::TimesEncountered(sort_order) => *sort_order,
            SortedBy::TimesEncounteredInTimeRange(sort_order) => *sort_order,
        }
    }
}

impl SortOrder {
    /// Owned counterpart of [`SortOrder::toggle`], handy where the value is
    /// copied out of a larger state first.
    pub fn toggled(self) -> (r: SortOrder)
        ensures
            r == self.spec_toggle(),
    {
        match self {
            SortOrder::Asc => SortOrder::Desc,
            SortOrder::Desc => SortOrder::Asc,
        }
    }
}

impl Default for SortedBy {
    /// A fresh listing orders by how often a player was met, most often
    /// first.
    fn default() -> (r: Self)
        ensures
            r == SortedBy::TimesEncountered(SortOrder::Desc),
    {
        SortedBy::TimesEncountered(SortOrder::Desc)
    }
}

/// How far back the encounter window reaches.
#[derive(Debug, Clone, Copy, PartialEq, Eq, Structural)]
pub enum TimePeriod {
    LastDay,
    LastWeek,
    LastMonth,
    AllTime,
}

/// Seconds in one day.
pub const DAY_SECS: i64 = 86400;

/// Seconds in seven days.
pub const WEEK_SECS: i64 = 604800;

/// Seconds in four weeks, the listing's "past month".
pub const MONTH_SECS: i64 = 2419200;

impl TimePeriod {
    /// Length of the window in seconds; `None` when every encounter counts.
    pub open spec fn spec_window_secs(self) -> Option<i64> {
        match self {
            TimePeriod::LastDay => Some(DAY_SECS),
            TimePeriod::LastWeek => Some(WEEK_SECS),
            TimePeriod::LastMonth => Some(MONTH_SECS),
            TimePeriod::AllTime => None,
        }
    }

    /// Start instant of the window that ends at `now` (seconds of local
    /// time). Clamped at the smallest representable instant, which no real
    /// clock reaches.
    pub open spec fn spec_window_start(self, now: i64) -> Option<i64> {
        match self.spec_window_secs() {
            Some(secs) => Some(
                if now >= i64::MIN + secs {
                    (now - secs) as i64
                } else {
                    i64::MIN
                },
            ),
            None => None,
        }
    }

    /// Human description of the window.
    pub fn description(&self) -> (r: &'static str)
        ensures
            *self is LastDay ==> r@ == "Past 24 Hours"@,
            *self is LastWeek ==> r@ == "Past Week"@,
            *self is LastMonth ==> r@ == "Past Month"@,
            *self is AllTime ==> r@ == "All Time"@,
    {
        match self {
            TimePeriod::LastDay => "Past 24 Hours",
            TimePeriod::LastWeek => "Past Week",
            TimePeriod::LastMonth => "Past Month",
            TimePeriod::AllTime => "All Time",
        }
    }

    /// Start instant of the window that ends at `now`; `None` means "all
    /// time". See [`TimePeriod::spec_window_start`].
    pub fn to_date(&self, now: i64) -> (r: Option<i64>)
        ensures
            r == self.spec_window_start(now),
    {
        match self {
            TimePeriod::LastDay => Some(if now >= i64::MIN + DAY_SECS { now - DAY_SECS } else { i64::MIN }),
            TimePeriod::LastWeek => Some(if now >= i64::MIN + WEEK_SECS { now - WEEK_SECS } else { i64::MIN }),
            TimePeriod::LastMonth => Some(if now >= i64::MIN + MONTH_SECS { now - MONTH_SECS } else { i64::MIN }),
            TimePeriod::AllTime => None,
        }
    }
}

impl Default for TimePeriod {
    /// A fresh listing looks one day back.
    fn default() -> (r: Self)
        ensures
            r == TimePeriod::LastDay,
    {
        TimePeriod::LastDay
    }
}

/// Attention band of an encounter count, a total function of the count
/// within the active window.
#[derive(Debug, Clone, Copy, PartialEq, Eq, Structural)]
pub enum SeverityBand {
    Neutral,
    Caution,
    Elevated,
    Severe,
}

/// Band of `encounters_in_window`: none or one meeting is unremarkable, two
/// or three warrant a glance, four or five stand out, six or more demand
/// attention.
pub open spec fn spec_severity_band(encounters_in_window: nat) -> SeverityBand {
    if encounters_in_window <= 1 {
        SeverityBand::Neutral
    } else if encounters_in_window <= 3 {
        SeverityBand::Caution
    } else if encounters_in_window <= 5 {
        SeverityBand::Elevated
    } else {
        SeverityBand::Severe
    }
}

/// See [`spec_severity_band`].
pub fn severity_band(encounters_in_window: usize) -> (r: SeverityBand)
    ensures
        r == spec_severity_band(encounters_in_window as nat),
{
    if encounters_in_window <= 1 {
        SeverityBand::Neutral
    } else if encounters_in_window <= 3 {
        SeverityBand::Caution
    } else if encounters_in_window <= 5 {
        SeverityBand::Elevated
    } else {
        SeverityBand::Severe
    }
}

} // verus!
