//! One acquisition run: discovering the published days, fetching each day's
//! page, and building the schedule from them. The run decides; whoever drives
//! it performs the requests and pauses it asks for and hands back what came
//! of them.
use vstd::prelude::*;
use crate::clock::{calculate_date_from_tag, clock_offset, fallback_days, fallback_label, get_offset_from_string, resolved_day};
use crate::listing::{discovered_labels, listing_of, parse_showtimes_from_html, scrape_available_day_endpoints};
use crate::schedule::{absolute_showtime, with_showtime, Schedule, Showtime};
use crate::text::joined;

verus! {

/// The root listings page; each day's page lies below it.
pub const LISTINGS_URL: &'static str = "https://www.ritzcinemas.com.au/now-showing";

/// The shortest pause between two page requests, in milliseconds.
pub const MIN_PAUSE_MS: u64 = 1000;

/// The longest pause between two page requests, in milliseconds.
pub const MAX_PAUSE_MS: u64 = 2000;

/// Relies on rand's `thread_rng` and `Rng::gen_range` over an inclusive
/// range: the value lies within the range, which must not be empty.
#[verifier::external_body]
fn random_between(lo: u64, hi: u64) -> (r: u64)
    requires
        lo <= hi,
    ensures
        lo <= r <= hi,
{
    rand::Rng::gen_range(&mut rand::thread_rng(), lo..=hi)
}

/// The days to fetch, each with its label: where discovery succeeded, the
/// discovered labels, each with the day it resolves to (none where it found
/// none); where it failed, the fixed week.
pub open spec fn week_days(discovered: Option<Seq<Seq<char>>>, today: int) -> Seq<(int, Seq<char>)> {
    match discovered {
        Some(labels) => Seq::new(
            labels.len(),
            |k: int| (resolved_day(labels[k], today), labels[k]),
        ),
        None => Seq::new(7, |k: int| (today + k, fallback_label(today, k))),
    }
}

/// Days with their labels as plain values.
pub open spec fn days_view(v: Seq<(i64, String)>) -> Seq<(int, Seq<char>)> {
    v.map_values(|p: (i64, String)| (p.0 as int, p.1@))
}

/// The days to fetch, from the labels that discovery found (`None` where it
/// failed), seen from day `today`.
pub fn get_dates_for_week(discovered: Option<Vec<String>>, today: i64) -> (r: Vec<(i64, String)>)
    requires
        today <= i64::MAX - 7,
    ensures
        days_view(r@) == week_days(discovered.deep_view(), today as int),
        discovered is None ==> r@.len() == 7,
{
    match discovered {
        Some(labels) => {
            let ghost lv = labels.deep_view();
            let mut days: Vec<(i64, String)> = Vec::new();
            let n = labels.len();
            let mut k: usize = 0;
            while k < n
                invariant
                    lv == labels.deep_view(),
                    n == lv.len(),
                    today <= i64::MAX - 7,
                    k <= n,
                    days@.len() == k,
                    forall|j: int|
                        0 <= j < k ==> #[trigger] days_view(days@)[j] == (
                            resolved_day(lv[j], today as int),
                            lv[j],
                        ),
                decreases n - k,
            {
                let label = &labels[k];
                assert(lv[k as int] == label@);
                let day = calculate_date_from_tag(label.as_str(), today);
                let ghost before = days@;
                days.push((day, label.clone()));
                assert(days_view(days@) =~= days_view(before).push((day as int, label@)));
                assert forall|j: int| 0 <= j < k + 1 implies #[trigger] days_view(days@)[j] == (
                    resolved_day(lv[j], today as int),
                    lv[j],
                ) by {
                    if j < k {
                        assert(days_view(days@)[j] == days_view(before)[j]);
                    }
                }
                k = k + 1;
            }
            assert(days_view(days@) =~= week_days(Some(lv), today as int));
            days
        },
        None => {
            let days = fallback_days(today);
            assert(days_view(days@) =~= week_days(discovered.deep_view(), today as int));
            days
        },
    }
}


/// The schedule after the clock strings `times` of one movie, on day `day`,
/// are added under `title`; a clock string that does not read as one is
/// skipped.
pub open spec fn with_times(
    s: Seq<(Seq<char>, Seq<Showtime>)>,
    title: Seq<char>,
    times: Seq<Seq<char>>,
    day: i64,
) -> Seq<(Seq<char>, Seq<Showtime>)>
    decreases times.len(),
{
    if times.len() == 0 {
        s
    } else {
        let s1 = with_times(s, title, times.drop_last(), day);
        match clock_offset(times.last()) {
            Some(m) => with_showtime(s1, title, Showtime { day, minute: m as u32 }),
            None => s1,
        }
    }
}

/// The schedule after a day's listing rows are added, for day `day`.
pub open spec fn with_rows(
    s: Seq<(Seq<char>, Seq<Showtime>)>,
    rows: Seq<(Seq<char>, Seq<Seq<char>>)>,
    day: i64,
) -> Seq<(Seq<char>, Seq<Showtime>)>
    decreases rows.len(),
{
    if rows.len() == 0 {
        s
    } else {
        let s1 = with_rows(s, rows.drop_last(), day);
        with_times(s1, rows.last().0, rows.last().1, day)
    }
}

/// Adds the showtimes of a day's listing rows to the schedule, for day
/// `day`. Clock strings that do not read as one are skipped, the rest of the
/// day kept.
pub fn add_listing(schedule: &mut Schedule, rows: &Vec<(String, Vec<String>)>, day: i64)
    requires
        old(schedule).well_formed(),
    ensures
        final(schedule).well_formed(),
        final(schedule)@ == with_rows(old(schedule)@, rows.deep_view(), day),
{
    let ghost rv = rows.deep_view();
    let ghost s0 = schedule@;
    let n = rows.len();
    let mut k: usize = 0;
    assert(rv.subrange(0, 0) =~= Seq::<(Seq<char>, Seq<Seq<char>>)>::empty());
    while k < n
        invariant
            rv == rows.deep_view(),
            n == rv.len(),
            k <= n,
            schedule.well_formed(),
            schedule@ == with_rows(s0, rv.subrange(0, k as int), day),
        decreases n - k,
    {
        let title = &rows[k].0;
        let times = &rows[k].1;
        assert(rv[k as int] == (title@, times.deep_view()));
        assert(rv.subrange(0, k + 1).drop_last() =~= rv.subrange(0, k as int));
        let ghost s1 = schedule@;
        let ghost tv = times.deep_view();
        let m = times.len();
        let mut j: usize = 0;
        assert(tv.subrange(0, 0) =~= Seq::<Seq<char>>::empty());
        while j < m
            invariant
                tv == times.deep_view(),
                m == tv.len(),
                j <= m,
                schedule.well_formed(),
                schedule@ == with_times(s1, title@, tv.subrange(0, j as int), day),
            decreases m - j,
        {
            assert(tv[j as int] == times[j as int]@);
            assert(tv.subrange(0, j + 1).drop_last() =~= tv.subrange(0, j as int));
            match get_offset_from_string(times[j].as_str()) {
                Some(offset) => {
                    let t = absolute_showtime(day, offset);
                    schedule.add_showtime(title.as_str(), t);
                },
                None => {},
            }
            j = j + 1;
        }
        assert(tv.subrange(0, m as int) =~= tv);
        k = k + 1;
    }
    assert(rv.subrange(0, n as int) =~= rv);
}


/// What a run hands to the foreground: zero or more progress reports, then
/// either the finished schedule or the reason the run failed.
pub enum MovieFetchMessage {
    Progress(String),
    Complete(Schedule),
    Error(String),
}

/// Where a run stands.
#[derive(Clone, Copy, Debug, PartialEq, Eq, Structural)]
pub enum FetchPhase {
    /// Waiting for the root page.
    Discovering,
    /// Waiting for the page of the day at this position.
    Fetching(usize),
    /// Waiting for the pause before the day at this position to end.
    Pausing(usize),
    /// Finished; the run takes no more events.
    Done,
}

/// What came of the request or pause that a run asked for.
pub enum FetchEvent {
    /// The page requested, as text.
    Page(String),
    /// The request failed, for this cause.
    Failed(String),
    /// The pause is over.
    Resumed,
}

/// What a run asks of whoever drives it.
pub enum FetchAction {
    /// Send the progress report where there is one, then request the page at
    /// `url`.
    Fetch { progress: Option<String>, url: String },
    /// Wait this many milliseconds, then report that the pause is over.
    Pause(u64),
    /// Send this last message; the run is over.
    Finish(MovieFetchMessage),
}

/// The progress report sent before a day's page is requested.
pub open spec fn progress_text(label: Seq<char>) -> Seq<char> {
    "Getting movie times for "@ + label
}

/// The address of a day's listing page.
pub open spec fn day_url(label: Seq<char>) -> Seq<char> {
    LISTINGS_URL@ + "/"@ + label
}

/// The reason given when a day's page could not be fetched.
pub open spec fn failure_text(label: Seq<char>, cause: Seq<char>) -> Seq<char> {
    "Failed to fetch "@ + label + ": "@ + cause
}

/// The reason given when a run receives an event it did not ask for.
pub const UNEXPECTED_EVENT: &'static str = "the fetch run received an event it did not ask for";

/// `a` asks for the page of the day at position `i`, reporting progress first.
pub open spec fn fetches_day(a: FetchAction, days: Seq<(i64, String)>, i: int) -> bool {
    match a {
        FetchAction::Fetch { progress, url } => progress.deep_view() == Some(
            progress_text(days[i].1@),
        ) && url@ == day_url(days[i].1@),
        _ => false,
    }
}

/// `a` ends the run with an error message whose reason is `reason`.
pub open spec fn fails_with(a: FetchAction, reason: Seq<char>) -> bool {
    match a {
        FetchAction::Finish(MovieFetchMessage::Error(t)) => t@ == reason,
        _ => false,
    }
}

/// An acquisition run.
pub struct FetchRun {
    /// The day the run resolves labels from.
    pub today: i64,
    /// The days to fetch, each with its label, once discovery is over.
    pub days: Vec<(i64, String)>,
    pub phase: FetchPhase,
    /// The showtimes gathered so far.
    pub schedule: Schedule,
}

impl FetchRun {
    /// The run's parts agree: positions lie within the days, and the
    /// schedule is well formed.
    pub open spec fn well_formed(&self) -> bool {
        &&& self.schedule.well_formed()
        &&& self.today <= i64::MAX - 7
        &&& match self.phase {
            FetchPhase::Fetching(i) => i < self.days@.len(),
            FetchPhase::Pausing(i) => i < self.days@.len(),
            _ => true,
        }
    }

    /// What one step does: `post` and `a` are the run and the action after
    /// `event` reached the run `pre`.
    pub open spec fn step_spec(pre: &FetchRun, post: &FetchRun, event: FetchEvent, a: FetchAction) -> bool {
        &&& post.today == pre.today
        &&& match (pre.phase, event) {
            (FetchPhase::Discovering, FetchEvent::Page(html)) => {
                &&& days_view(post.days@) == week_days(discovered_labels(html@), pre.today as int)
                &&& if post.days@.len() > 0 {
                    &&& post.phase == FetchPhase::Fetching(0)
                    &&& post.schedule@ == pre.schedule@
                    &&& fetches_day(a, post.days@, 0)
                } else {
                    &&& post.phase == FetchPhase::Done
                    &&& a matches FetchAction::Finish(MovieFetchMessage::Complete(c)) && c@ == pre.schedule@
                        && c.well_formed()
                }
            },
            (FetchPhase::Discovering, FetchEvent::Failed(_)) => {
                &&& days_view(post.days@) == week_days(None, pre.today as int)
                &&& post.phase == FetchPhase::Fetching(0)
                &&& post.schedule@ == pre.schedule@
                &&& fetches_day(a, post.days@, 0)
            },
            (FetchPhase::Fetching(i), FetchEvent::Page(html)) => {
                let s = with_rows(pre.schedule@, listing_of(html@), pre.days@[i as int].0);
                &&& post.days@ == pre.days@
                &&& if i + 1 < pre.days@.len() {
                    &&& post.phase == FetchPhase::Pausing((i + 1) as usize)
                    &&& post.schedule@ == s
                    &&& a matches FetchAction::Pause(ms) && MIN_PAUSE_MS <= ms <= MAX_PAUSE_MS
                } else {
                    &&& post.phase == FetchPhase::Done
                    &&& a matches FetchAction::Finish(MovieFetchMessage::Complete(c)) && c@ == s
                        && c.well_formed()
                }
            },
            (FetchPhase::Fetching(i), FetchEvent::Failed(cause)) => {
                &&& post.days@ == pre.days@
                &&& post.phase == FetchPhase::Done
                &&& post.schedule@ == pre.schedule@
                &&& fails_with(a, failure_text(pre.days@[i as int].1@, cause@))
            },
            (FetchPhase::Pausing(i), FetchEvent::Resumed) => {
                &&& post.days@ == pre.days@
                &&& post.phase == FetchPhase::Fetching(i)
                &&& post.schedule@ == pre.schedule@
                &&& fetches_day(a, post.days@, i as int)
            },
            _ => {
                &&& post.days@ == pre.days@
                &&& post.phase == FetchPhase::Done
                &&& post.schedule@ == pre.schedule@
                &&& fails_with(a, UNEXPECTED_EVENT@)
            },
        }
    }

    /// A run seen from day `today`, with the request for the root page that
    /// starts it.
    pub fn start(today: i64) -> (r: (FetchRun, FetchAction))
        requires
            today <= i64::MAX - 7,
        ensures
            r.0.well_formed(),
            r.0.today == today,
            r.0.phase == FetchPhase::Discovering,
            r.0.schedule@.len() == 0,
            r.1 matches FetchAction::Fetch { progress, url } && progress is None && url@
                == LISTINGS_URL@,
    {
        let run = FetchRun { today, days: Vec::new(), phase: FetchPhase::Discovering, schedule: Schedule::new() };
        (run, FetchAction::Fetch { progress: None, url: LISTINGS_URL.to_owned() })
    }

    /// The request for the page of the day at position `i`.
    fn fetch_day(&self, i: usize) -> (a: FetchAction)
        requires
            i < self.days@.len(),
        ensures
            fetches_day(a, self.days@, i as int),
    {
        let label = self.days[i].1.as_str();
        let progress = joined("Getting movie times for ", label);
        let url = joined(joined(LISTINGS_URL, "/").as_str(), label);
        proof {
            reveal_strlit("/");
        }
        FetchAction::Fetch { progress: Some(progress), url }
    }

    /// Ends the run with an error whose reason is `reason`.
    fn fail(&mut self, reason: String) -> (a: FetchAction)
        requires
            old(self).well_formed(),
        ensures
            final(self).well_formed(),
            final(self).today == old(self).today,
            final(self).days@ == old(self).days@,
            final(self).schedule@ == old(self).schedule@,
            final(self).phase == FetchPhase::Done,
            fails_with(a, reason@),
    {
        self.phase = FetchPhase::Done;
        FetchAction::Finish(MovieFetchMessage::Error(reason))
    }

    /// Moves the run on by one event and says what it asks for next.
    pub fn step(&mut self, event: FetchEvent) -> (a: FetchAction)
        requires
            old(self).well_formed(),
            old(self).phase != FetchPhase::Done,
        ensures
            final(self).well_formed(),
            FetchRun::step_spec(old(self), final(self), event, a),
    {
        match (self.phase, event) {
            (FetchPhase::Discovering, FetchEvent::Page(html)) => {
                let labels = scrape_available_day_endpoints(html.as_str());
                self.days = get_dates_for_week(labels, self.today);
                if self.days.len() > 0 {
                    self.phase = FetchPhase::Fetching(0);
                    self.fetch_day(0)
                } else {
                    self.phase = FetchPhase::Done;
                    let mut done = Schedule::new();
                    core::mem::swap(&mut done, &mut self.schedule);
                    FetchAction::Finish(MovieFetchMessage::Complete(done))
                }
            },
            (FetchPhase::Discovering, FetchEvent::Failed(_)) => {
                self.days = get_dates_for_week(None, self.today);
                self.phase = FetchPhase::Fetching(0);
                self.fetch_day(0)
            },
            (FetchPhase::Fetching(i), FetchEvent::Page(html)) => {
                let rows = parse_showtimes_from_html(html.as_str());
                let day = self.days[i].0;
                add_listing(&mut self.schedule, &rows, day);
                if self.days.len() - i > 1 {
                    self.phase = FetchPhase::Pausing(i + 1);
                    FetchAction::Pause(random_between(MIN_PAUSE_MS, MAX_PAUSE_MS))
                } else {
                    self.phase = FetchPhase::Done;
                    let mut done = Schedule::new();
                    core::mem::swap(&mut done, &mut self.schedule);
                    FetchAction::Finish(MovieFetchMessage::Complete(done))
                }
            },
            (FetchPhase::Fetching(i), FetchEvent::Failed(cause)) => {
                let label = self.days[i].1.as_str();
                let head = joined(joined("Failed to fetch ", label).as_str(), ": ");
                let reason = joined(head.as_str(), cause.as_str());
                self.fail(reason)
            },
            (FetchPhase::Pausing(i), FetchEvent::Resumed) => {
                self.phase = FetchPhase::Fetching(i);
                self.fetch_day(i)
            },
            _ => self.fail(UNEXPECTED_EVENT.to_owned()),
        }
    }
}

/// A step sends a last message exactly when it ends the run, and a run
/// that has ended takes no further event: a run's messages are progress
/// reports followed by one last message.
pub proof fn lemma_last_message_ends_run(pre: FetchRun, post: FetchRun, event: FetchEvent, a: FetchAction)
    requires
        FetchRun::step_spec(&pre, &post, event, a),
    ensures
        (a is Finish) <==> (post.phase == FetchPhase::Done),
{
}

} // verus!
