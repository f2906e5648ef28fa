//! The foreground's state: the schedule on show, the selections in it, and
//! how messages from background work and key presses change them.
use vstd::prelude::*;
use crate::detail::{poster_wanted, MovieDetailMessage, Welcome};
use crate::fetch::{FetchAction, FetchEvent, FetchPhase, FetchRun, MovieFetchMessage};
use crate::schedule::{
    available_dates, entries_on_day, entries_view, filtered_by_date, is_day_index, is_stale, stale,
    sorted_by_title, sorted_movies, same_entries, title_order, MovieEntry, Schedule,
};
use crate::text::{decimal, decimal_text, joined, pop_char, push_char};

verus! {

/// The screen on show.
#[derive(Clone, Copy, Debug, PartialEq, Eq, Structural)]
pub enum CurrentScreen {
    Main,
    Movie,
    Date,
    MovieDetail,
    Exiting,
}

/// What happened to a running acquisition when one of its messages arrived.
#[derive(Clone, Copy, Debug, PartialEq, Eq, Structural)]
pub enum FetchReceipt {
    /// A progress report; the run goes on.
    Progress,
    /// The run finished and its schedule replaced the one on show; it is
    /// worth saving.
    Completed,
    /// The run failed; the schedule on show is unchanged.
    Failed,
}

/// The state of the foreground.
pub struct App {
    pub ritz_movie_times: Schedule,
    pub current_screen: CurrentScreen,
    pub searching: bool,
    pub search_term: String,
    pub loading_movies: bool,
    pub loading_messages: Vec<String>,
    pub selected_movie_index: usize,
    pub selected_date_index: usize,
    pub available_dates: Vec<i64>,
    /// When the schedule was captured, in seconds since the Unix epoch.
    pub last_updated: Option<i64>,
    pub selected_movie_detail: Option<Welcome>,
    pub loading_movie_detail: bool,
    pub movie_detail_error: Option<String>,
    pub omdb_api_key: Option<String>,
    pub loading_poster: bool,
}

impl App {
    /// The schedule is well formed and the list of days is the one it gives.
    pub open spec fn well_formed(&self) -> bool {
        &&& self.ritz_movie_times.well_formed()
        &&& is_day_index(self.ritz_movie_times@, self.available_dates@)
    }

    /// `post` agrees with `pre` in everything but the two selection indices.
    pub open spec fn same_but_selection(pre: &App, post: &App) -> bool {
        &&& post.ritz_movie_times@ == pre.ritz_movie_times@
        &&& post.available_dates@ == pre.available_dates@
        &&& post.current_screen == pre.current_screen
        &&& post.searching == pre.searching
        &&& post.search_term@ == pre.search_term@
        &&& post.loading_movies == pre.loading_movies
        &&& post.loading_messages@ == pre.loading_messages@
        &&& post.last_updated == pre.last_updated
        &&& post.selected_movie_detail == pre.selected_movie_detail
        &&& post.loading_movie_detail == pre.loading_movie_detail
        &&& post.movie_detail_error == pre.movie_detail_error
        &&& post.omdb_api_key == pre.omdb_api_key
        &&& post.loading_poster == pre.loading_poster
    }

    /// What `next_movie` does: the movie selection moves down by one,
    /// wrapping to the top; with no movies nothing changes.
    pub open spec fn after_next_movie(pre: &App, post: &App) -> bool {
        &&& App::same_but_selection(pre, post)
        &&& post.selected_date_index == pre.selected_date_index
        &&& (pre.movie_count() == 0 ==> post.selected_movie_index == pre.selected_movie_index)
        &&& (pre.movie_count() > 0 ==> post.selected_movie_index == (pre.selected_movie_index + 1) % (
        pre.movie_count() as int))
    }

    /// What `previous_movie` does: the movie selection moves up by one,
    /// wrapping to the bottom; with no movies nothing changes.
    pub open spec fn after_previous_movie(pre: &App, post: &App) -> bool {
        &&& App::same_but_selection(pre, post)
        &&& post.selected_date_index == pre.selected_date_index
        &&& (pre.movie_count() == 0 ==> post.selected_movie_index == pre.selected_movie_index)
        &&& (pre.movie_count() > 0 && pre.selected_movie_index == 0 ==> post.selected_movie_index
            == pre.movie_count() - 1)
        &&& (pre.movie_count() > 0 && pre.selected_movie_index > 0 ==> post.selected_movie_index
            == pre.selected_movie_index - 1)
    }

    /// What `next_date` does: the next day is selected, wrapping to the
    /// first, with the first movie; with no days nothing changes.
    pub open spec fn after_next_date(pre: &App, post: &App) -> bool {
        &&& App::same_but_selection(pre, post)
        &&& (pre.available_dates@.len() == 0 ==> post.selected_date_index == pre.selected_date_index
            && post.selected_movie_index == pre.selected_movie_index)
        &&& (pre.available_dates@.len() > 0 ==> post.selected_date_index == (pre.selected_date_index + 1)
            % (pre.available_dates@.len() as int) && post.selected_movie_index == 0)
    }

    /// What `previous_date` does: the previous day is selected, wrapping to
    /// the last, with the first movie; with no days nothing changes.
    pub open spec fn after_previous_date(pre: &App, post: &App) -> bool {
        &&& App::same_but_selection(pre, post)
        &&& (pre.available_dates@.len() == 0 ==> post.selected_date_index == pre.selected_date_index
            && post.selected_movie_index == pre.selected_movie_index)
        &&& (pre.available_dates@.len() > 0 && pre.selected_date_index == 0 ==> post.selected_date_index
            == pre.available_dates@.len() - 1)
        &&& (pre.available_dates@.len() > 0 && pre.selected_date_index > 0 ==> post.selected_date_index
            == pre.selected_date_index - 1)
        &&& (pre.available_dates@.len() > 0 ==> post.selected_movie_index == 0)
    }

    /// The day selected, where the index points at one.
    pub open spec fn selected_day(&self) -> Option<i64> {
        if self.selected_date_index < self.available_dates@.len() {
            Some(self.available_dates@[self.selected_date_index as int])
        } else {
            None
        }
    }

    /// The title at the selected position of the selected day's list, where
    /// there is one.
    pub open spec fn selected_title(&self) -> Option<Seq<char>> {
        match self.selected_day() {
            Some(d) => {
                let v = title_order(entries_on_day(self.ritz_movie_times@, d as int));
                if self.selected_movie_index < v.len() {
                    Some(v[self.selected_movie_index as int].0)
                } else {
                    None
                }
            },
            None => None,
        }
    }

    /// How many movies the selected day lists.
    pub open spec fn movie_count(&self) -> nat {
        match self.selected_day() {
            Some(d) => entries_on_day(self.ritz_movie_times@, d as int).len(),
            None => 0,
        }
    }

    /// The foreground at start: nothing on show, no run in flight.
    pub fn new(omdb_api_key: Option<String>) -> (r: App)
        ensures
            r.well_formed(),
            r.ritz_movie_times@.len() == 0,
            r.available_dates@.len() == 0,
            r.last_updated is None,
            r.current_screen == CurrentScreen::Main,
            !r.loading_movies,
            r.selected_movie_index == 0,
            r.selected_date_index == 0,
            r.omdb_api_key == omdb_api_key,
    {
        let r = App {
            ritz_movie_times: Schedule::new(),
            current_screen: CurrentScreen::Main,
            searching: false,
            search_term: String::new(),
            loading_movies: false,
            loading_messages: Vec::new(),
            selected_movie_index: 0,
            selected_date_index: 0,
            available_dates: Vec::new(),
            last_updated: None,
            selected_movie_detail: None,
            loading_movie_detail: false,
            movie_detail_error: None,
            omdb_api_key,
            loading_poster: false,
        };
        proof {
            assert forall|d: i64| #[trigger] r.available_dates@.contains(d) <==> crate::schedule::has_day(
                r.ritz_movie_times@,
                d as int,
            ) by {
                if r.available_dates@.contains(d) {
                    let k = choose|k: int| 0 <= k < r.available_dates@.len() && r.available_dates@[k] == d;
                }
            }
        }
        r
    }

    /// Recomputes the list of days from the schedule and selects the first.
    pub fn update_available_dates(&mut self)
        requires
            old(self).ritz_movie_times.well_formed(),
        ensures
            final(self).well_formed(),
            final(self).ritz_movie_times@ == old(self).ritz_movie_times@,
            final(self).selected_date_index == 0,
            final(self).selected_movie_index == old(self).selected_movie_index,
            final(self).last_updated == old(self).last_updated,
    {
        self.available_dates = available_dates(&self.ritz_movie_times);
        self.selected_date_index = 0;
    }

    /// Puts a schedule on show, captured at `captured` (seconds since the
    /// Unix epoch), as when a saved snapshot is loaded.
    pub fn show_schedule(&mut self, schedule: Schedule, captured: i64)
        requires
            schedule.well_formed(),
        ensures
            final(self).well_formed(),
            final(self).ritz_movie_times@ == schedule@,
            final(self).last_updated == Some(captured),
            final(self).selected_date_index == 0,
            final(self).selected_movie_index == 0,
    {
        self.ritz_movie_times = schedule;
        self.last_updated = Some(captured);
        self.update_available_dates();
        self.selected_movie_index = 0;
    }

    /// Starts a refresh unless one is in flight; says whether it did.
    pub fn fetch_movies(&mut self) -> (started: bool)
        ensures
            started == !old(self).loading_movies,
            final(self).loading_movies,
            started ==> final(self).loading_messages@.len() == 0,
            !started ==> final(self).loading_messages@ == old(self).loading_messages@,
            final(self).ritz_movie_times@ == old(self).ritz_movie_times@,
            final(self).available_dates@ == old(self).available_dates@,
            final(self).selected_date_index == old(self).selected_date_index,
            final(self).selected_movie_index == old(self).selected_movie_index,
    {
        if self.loading_movies {
            return false;
        }
        self.loading_movies = true;
        self.loading_messages = Vec::new();
        true
    }

    /// What taking in one message does: `post` and `r` are the state and
    /// the receipt after `message`, received at `now`, reached `pre`.
    pub open spec fn receive_spec(pre: &App, post: &App, message: MovieFetchMessage, now: i64, r: FetchReceipt) -> bool {
        match message {
            MovieFetchMessage::Progress(t) => {
                &&& r == FetchReceipt::Progress
                &&& post.loading_messages@ == pre.loading_messages@.push(t)
                &&& post.ritz_movie_times@ == pre.ritz_movie_times@
                &&& post.available_dates@ == pre.available_dates@
                &&& post.last_updated == pre.last_updated
                &&& post.loading_movies == pre.loading_movies
                &&& post.selected_date_index == pre.selected_date_index
                &&& post.selected_movie_index == pre.selected_movie_index
            },
            MovieFetchMessage::Complete(s) => {
                &&& r == FetchReceipt::Completed
                &&& post.ritz_movie_times@ == s@
                &&& post.last_updated == Some(now)
                &&& !post.loading_movies
                &&& post.loading_messages@.len() == 0
                &&& post.selected_date_index == 0
                &&& post.selected_movie_index == 0
            },
            MovieFetchMessage::Error(e) => {
                &&& r == FetchReceipt::Failed
                &&& post.loading_messages@.len() == pre.loading_messages@.len() + 1
                &&& post.loading_messages@.subrange(0, pre.loading_messages@.len() as int)
                    == pre.loading_messages@
                &&& post.loading_messages@.last()@ == "Error: "@ + e@
                &&& post.ritz_movie_times@ == pre.ritz_movie_times@
                &&& post.available_dates@ == pre.available_dates@
                &&& post.last_updated == pre.last_updated
                &&& !post.loading_movies
                &&& post.selected_date_index == pre.selected_date_index
                &&& post.selected_movie_index == pre.selected_movie_index
            },
        }
    }

    /// Takes in one message of the running acquisition, received at `now`
    /// (seconds since the Unix epoch). A progress report is kept for
    /// display; a finished schedule replaces the one on show, is stamped
    /// `now` and resets the selections; a failure is kept for display and
    /// leaves the schedule as it was. Either of the last two ends the run.
    pub fn handle_fetch_message(&mut self, message: MovieFetchMessage, now: i64) -> (r: FetchReceipt)
        requires
            old(self).well_formed(),
            message matches MovieFetchMessage::Complete(s) ==> s.well_formed(),
        ensures
            final(self).well_formed(),
            App::receive_spec(old(self), final(self), message, now, r),
    {
        match message {
            MovieFetchMessage::Progress(t) => {
                self.loading_messages.push(t);
                FetchReceipt::Progress
            },
            MovieFetchMessage::Complete(s) => {
                self.show_schedule(s, now);
                self.loading_movies = false;
                self.loading_messages = Vec::new();
                FetchReceipt::Completed
            },
            MovieFetchMessage::Error(e) => {
                let line = joined("Error: ", e.as_str());
                let ghost before = self.loading_messages@;
                self.loading_messages.push(line);
                assert(self.loading_messages@.subrange(0, before.len() as int) =~= before);
                self.loading_movies = false;
                FetchReceipt::Failed
            },
        }
    }
}


impl App {
    /// The day selected, where the index points at one.
    pub fn get_selected_date(&self) -> (r: Option<i64>)
        ensures
            r == self.selected_day(),
    {
        if self.selected_date_index < self.available_dates.len() {
            Some(self.available_dates[self.selected_date_index])
        } else {
            None
        }
    }

    /// The movies of the selected day, each with that day's showtimes only,
    /// ordered by title case-insensitively; none where no day is selected.
    pub fn get_filtered_movies(&self) -> (r: Vec<MovieEntry>)
        ensures
            match self.selected_day() {
                Some(d) => entries_view(r@) == title_order(entries_on_day(self.ritz_movie_times@, d as int)),
                None => r@.len() == 0,
            },
            sorted_by_title(entries_view(r@)),
            match self.selected_day() {
                Some(d) => same_entries(entries_view(r@), entries_on_day(self.ritz_movie_times@, d as int)),
                None => r@.len() == 0,
            },
            r@.len() == self.movie_count(),
    {
        match self.get_selected_date() {
            Some(d) => filtered_by_date(&self.ritz_movie_times, d),
            None => Vec::new(),
        }
    }

    /// Every movie on show with all its showtimes, ordered by title
    /// case-insensitively.
    pub fn get_sorted_movies(&self) -> (r: Vec<MovieEntry>)
        ensures
            entries_view(r@) == title_order(self.ritz_movie_times@),
            sorted_by_title(entries_view(r@)),
            same_entries(entries_view(r@), self.ritz_movie_times@),
    {
        sorted_movies(&self.ritz_movie_times)
    }

    /// The title at the selected position of the selected day's list, where
    /// there is one.
    pub fn get_selected_movie_name(&self) -> (r: Option<String>)
        ensures
            r is Some <==> self.selected_movie_index < self.movie_count(),
            match r {
                Some(t) => self.selected_title() == Some(t@),
                None => self.selected_title() is None,
            },
            r matches Some(t) ==> exists|x: (Seq<char>, Seq<crate::schedule::Showtime>)|
                #[trigger] entries_on_day(self.ritz_movie_times@, self.selected_day()->0 as int).contains(x)
                    && x.0 == t@,
    {
        let movies = self.get_filtered_movies();
        if self.selected_movie_index < movies.len() {
            let entry = &movies[self.selected_movie_index];
            proof {
                let x = entries_view(movies@)[self.selected_movie_index as int];
                assert(entries_view(movies@).contains(x));
            }
            proof {
                assert(entries_view(movies@)[self.selected_movie_index as int].0 == entry.0@);
            }
            Some(entry.0.clone())
        } else {
            None
        }
    }

    /// Moves the movie selection down by one, wrapping to the top.
    pub fn next_movie(&mut self)
        requires
            old(self).well_formed(),
        ensures
            final(self).well_formed(),
            App::after_next_movie(old(self), final(self)),
    {
        let count = self.get_filtered_movies().len();
        if count == 0 {
            return;
        }
        self.selected_movie_index = wrapped_next(self.selected_movie_index, count);
    }

    /// Moves the movie selection up by one, wrapping to the bottom.
    pub fn previous_movie(&mut self)
        requires
            old(self).well_formed(),
        ensures
            final(self).well_formed(),
            App::after_previous_movie(old(self), final(self)),
    {
        let count = self.get_filtered_movies().len();
        if count == 0 {
            return;
        }
        if self.selected_movie_index == 0 {
            self.selected_movie_index = count - 1;
        } else {
            self.selected_movie_index = self.selected_movie_index - 1;
        }
    }

    /// Selects the next day, wrapping to the first, and the first movie.
    pub fn next_date(&mut self)
        requires
            old(self).well_formed(),
        ensures
            final(self).well_formed(),
            App::after_next_date(old(self), final(self)),
    {
        let n = self.available_dates.len();
        if n > 0 {
            self.selected_date_index = wrapped_next(self.selected_date_index, n);
            self.selected_movie_index = 0;
        }
    }

    /// Selects the previous day, wrapping to the last, and the first movie.
    pub fn previous_date(&mut self)
        requires
            old(self).well_formed(),
        ensures
            final(self).well_formed(),
            App::after_previous_date(old(self), final(self)),
    {
        let n = self.available_dates.len();
        if n > 0 {
            if self.selected_date_index == 0 {
                self.selected_date_index = n - 1;
            } else {
                self.selected_date_index = self.selected_date_index - 1;
            }
            self.selected_movie_index = 0;
        }
    }

    /// Whether a refresh is advisable on day `today`: the earliest day on
    /// show has passed.
    pub fn is_update_recommended(&self, today: i64) -> (r: bool)
        ensures
            r == stale(self.available_dates@, today as int),
    {
        is_stale(&self.available_dates, today)
    }
}

/// The position after `i` among `n`, wrapping to the first.
pub fn wrapped_next(i: usize, n: usize) -> (r: usize)
    requires
        n > 0,
    ensures
        r == (i + 1) % (n as int),
{
    let m = i % n;
    let r = (m + 1) % n;
    assert(r == (i + 1) % (n as int)) by (nonlinear_arith)
        requires m == i % n, r == (m + 1) % (n as int), n > 0;
    r
}

/// How long ago a capture `elapsed` seconds old was made, in words.
pub open spec fn age_text(elapsed: int) -> Seq<char> {
    if elapsed / 60 < 1 {
        "Just now"@
    } else if elapsed / 60 < 60 {
        decimal((elapsed / 60) as nat) + " min ago"@
    } else if elapsed / 3600 < 24 {
        decimal((elapsed / 3600) as nat) + " hr ago"@
    } else {
        decimal((elapsed / 86400) as nat) + " days ago"@
    }
}

impl App {
    /// When the schedule on show was captured, as seen at `now` (seconds
    /// since the Unix epoch): `Never`, `Just now`, or whole minutes, hours
    /// or days ago.
    pub fn get_last_updated_display(&self, now: i64) -> (r: String)
        ensures
            match self.last_updated {
                None => r@ == "Never"@,
                Some(t) => now >= t ==> r@ == age_text(now - t),
            },
            self.last_updated matches Some(t) && now < t ==> r@ == "Just now"@,
    {
        match self.last_updated {
            None => "Never".to_owned(),
            Some(t) => {
                if now < t {
                    return "Just now".to_owned();
                }
                let elapsed: u64 = (now as i128 - t as i128) as u64;
                let minutes = elapsed / 60;
                let hours = elapsed / 3600;
                if minutes < 1 {
                    "Just now".to_owned()
                } else if minutes < 60 {
                    joined(decimal_text(minutes).as_str(), " min ago")
                } else if hours < 24 {
                    joined(decimal_text(hours).as_str(), " hr ago")
                } else {
                    joined(decimal_text(elapsed / 86400).as_str(), " days ago")
                }
            },
        }
    }
}


/// A key press, as far as the foreground tells keys apart.
#[derive(Clone, Copy, Debug, PartialEq, Eq, Structural)]
pub enum Key {
    Char(char),
    Backspace,
    Enter,
    Esc,
    Up,
    Down,
    Left,
    Right,
    Other,
}

/// What a key press asks of whoever runs the foreground.
pub enum KeyOutcome {
    /// Nothing beyond the change of state.
    Stay,
    /// Leave the program.
    Quit,
    /// A refresh was started: run an acquisition.
    FetchMovies,
    /// Look up the details of the movie with this title.
    LookupDetail(String),
    /// The detail screen was left: drop its poster.
    LeftDetail,
}

impl App {
    /// Prepares a detail lookup: with no key set the lookup fails at once
    /// with `API key not set`; else the screen's earlier details are cleared
    /// and the key to look up with is returned.
    pub fn fetch_movie_detail(&mut self) -> (key: Option<String>)
        ensures
            key == old(self).omdb_api_key,
            final(self).omdb_api_key == old(self).omdb_api_key,
            key is None ==> (final(self).movie_detail_error matches Some(e) && e@ == "API key not set"@),
            key is None ==> !final(self).loading_movie_detail,
            key is Some ==> final(self).loading_movie_detail && final(self).selected_movie_detail is None
                && final(self).movie_detail_error is None,
            final(self).ritz_movie_times@ == old(self).ritz_movie_times@,
            final(self).available_dates@ == old(self).available_dates@,
    {
        match &self.omdb_api_key {
            None => {
                self.movie_detail_error = Some("API key not set".to_owned());
                self.loading_movie_detail = false;
                None
            },
            Some(k) => {
                let key = k.clone();
                self.loading_movie_detail = true;
                self.selected_movie_detail = None;
                self.movie_detail_error = None;
                Some(key)
            },
        }
    }

    /// Takes in the outcome of a detail lookup. Returns the poster address to
    /// fetch next, where the details name one.
    pub fn handle_detail_message(&mut self, message: MovieDetailMessage) -> (poster: Option<String>)
        ensures
            !final(self).loading_movie_detail,
            match message {
                MovieDetailMessage::Complete(w) => {
                    &&& final(self).selected_movie_detail == Some(w)
                    &&& (poster is Some <==> (w.poster@.len() > 0 && w.poster@ != "N/A"@))
                    &&& (poster matches Some(p) ==> p@ == w.poster@)
                    &&& (poster is Some ==> final(self).loading_poster)
                },
                MovieDetailMessage::Error(e) => {
                    &&& final(self).movie_detail_error == Some(e)
                    &&& poster is None
                },
            },
            final(self).ritz_movie_times@ == old(self).ritz_movie_times@,
            final(self).available_dates@ == old(self).available_dates@,
    {
        self.loading_movie_detail = false;
        match message {
            MovieDetailMessage::Complete(w) => {
                let url = w.poster.clone();
                let wanted = poster_wanted(url.as_str());
                self.selected_movie_detail = Some(w);
                if wanted {
                    self.loading_poster = true;
                    Some(url)
                } else {
                    None
                }
            },
            MovieDetailMessage::Error(e) => {
                self.movie_detail_error = Some(e);
                None
            },
        }
    }

    /// Takes in the outcome of a poster download; a failed one is dropped,
    /// the poster being optional.
    pub fn poster_done(&mut self)
        ensures
            !final(self).loading_poster,
            final(self).ritz_movie_times@ == old(self).ritz_movie_times@,
            final(self).available_dates@ == old(self).available_dates@,
    {
        self.loading_poster = false;
    }

    /// Changes the state for a key press, and says what else it asks for.
    /// While a search is typed, keys edit the search term. On the main screen
    /// `q` quits, `m` starts a search, `g` starts a refresh unless one is in
    /// flight, Enter opens the selected movie's details, and arrows (or
    /// `j`, `k`, `l`, `h`) move the selections. On the detail screen Esc or
    /// `b` goes back. On the exit prompt `y` quits and `n` goes back.
    pub fn handle_key(&mut self, key: Key) -> (r: KeyOutcome)
        requires
            old(self).well_formed(),
        ensures
            final(self).well_formed(),
            final(self).ritz_movie_times@ == old(self).ritz_movie_times@,
            final(self).available_dates@ == old(self).available_dates@,
            old(self).searching ==> r is Stay && final(self).current_screen == old(self).current_screen,
            old(self).searching ==> (key matches Key::Char(c) ==> final(self).search_term@
                == old(self).search_term@.push(c) && final(self).searching),
            old(self).searching && key == Key::Enter ==> !final(self).searching
                && final(self).search_term@ == old(self).search_term@,
            old(self).searching && key == Key::Esc ==> !final(self).searching
                && final(self).search_term@.len() == 0,
            !old(self).searching && key == Key::Char('q') && old(self).current_screen != CurrentScreen::Exiting
                ==> r is Quit,
            !old(self).searching && old(self).current_screen == CurrentScreen::Main && key == Key::Char('g')
                ==> (r is FetchMovies <==> !old(self).loading_movies) && final(self).loading_movies,
            !old(self).searching && old(self).current_screen == CurrentScreen::Main && key == Key::Enter
                ==> (r is LookupDetail <==> old(self).selected_movie_index < old(self).movie_count()),
            r is LookupDetail ==> final(self).current_screen == CurrentScreen::MovieDetail,
            !old(self).searching && old(self).current_screen == CurrentScreen::Main && key == Key::Char('m')
                ==> r is Stay && final(self).searching,
            !old(self).searching && old(self).current_screen == CurrentScreen::Main && (key == Key::Down
                || key == Key::Char('j')) ==> r is Stay && App::after_next_movie(old(self), final(self)),
            !old(self).searching && old(self).current_screen == CurrentScreen::Main && (key == Key::Up
                || key == Key::Char('k')) ==> r is Stay && App::after_previous_movie(old(self), final(self)),
            !old(self).searching && old(self).current_screen == CurrentScreen::Main && (key == Key::Right
                || key == Key::Char('l')) ==> r is Stay && App::after_next_date(old(self), final(self)),
            !old(self).searching && old(self).current_screen == CurrentScreen::Main && (key == Key::Left
                || key == Key::Char('h')) ==> r is Stay && App::after_previous_date(old(self), final(self)),
            old(self).searching && key == Key::Backspace ==> final(self).searching && (if old(
                self,
            ).search_term@.len() > 0 {
                final(self).search_term@ == old(self).search_term@.drop_last()
            } else {
                final(self).search_term@ == old(self).search_term@
            }),
            !old(self).searching && old(self).current_screen == CurrentScreen::Exiting && key == Key::Char('n')
                ==> final(self).current_screen == CurrentScreen::Main,
            !old(self).searching && old(self).current_screen == CurrentScreen::Main && key == Key::Char('g')
                && old(self).loading_movies ==> final(self).loading_messages@ == old(self).loading_messages@,
            !old(self).searching && old(self).current_screen == CurrentScreen::Main && key == Key::Char('g')
                && !old(self).loading_movies ==> final(self).loading_messages@.len() == 0,
            r matches KeyOutcome::LookupDetail(t) ==> old(self).selected_title() == Some(t@),
            !old(self).searching && old(self).current_screen == CurrentScreen::MovieDetail && (key
                == Key::Esc || key == Key::Char('b')) ==> r is LeftDetail && final(self).current_screen
                == CurrentScreen::Main && final(self).selected_movie_detail is None
                && final(self).movie_detail_error is None && !final(self).loading_poster,
            !old(self).searching && old(self).current_screen == CurrentScreen::Exiting ==> (r is Quit
                <==> key == Key::Char('y')),
    {
        if self.searching {
            match key {
                Key::Char(c) => push_char(&mut self.search_term, c),
                Key::Backspace => {
                    pop_char(&mut self.search_term);
                },
                Key::Enter => {
                    self.searching = false;
                },
                Key::Esc => {
                    self.searching = false;
                    self.search_term = String::new();
                },
                _ => {},
            }
            return KeyOutcome::Stay;
        }
        match self.current_screen {
            CurrentScreen::Main => match key {
                Key::Char('q') => KeyOutcome::Quit,
                Key::Char('m') => {
                    self.searching = true;
                    KeyOutcome::Stay
                },
                Key::Char('g') => {
                    if self.fetch_movies() {
                        KeyOutcome::FetchMovies
                    } else {
                        KeyOutcome::Stay
                    }
                },
                Key::Enter => match self.get_selected_movie_name() {
                    Some(name) => {
                        self.current_screen = CurrentScreen::MovieDetail;
                        KeyOutcome::LookupDetail(name)
                    },
                    None => KeyOutcome::Stay,
                },
                Key::Down | Key::Char('j') => {
                    self.next_movie();
                    KeyOutcome::Stay
                },
                Key::Up | Key::Char('k') => {
                    self.previous_movie();
                    KeyOutcome::Stay
                },
                Key::Right | Key::Char('l') => {
                    self.next_date();
                    KeyOutcome::Stay
                },
                Key::Left | Key::Char('h') => {
                    self.previous_date();
                    KeyOutcome::Stay
                },
                _ => KeyOutcome::Stay,
            },
            CurrentScreen::Movie | CurrentScreen::Date => match key {
                Key::Char('q') => KeyOutcome::Quit,
                _ => KeyOutcome::Stay,
            },
            CurrentScreen::MovieDetail => match key {
                Key::Char('q') => KeyOutcome::Quit,
                Key::Esc | Key::Char('b') => {
                    self.current_screen = CurrentScreen::Main;
                    self.selected_movie_detail = None;
                    self.movie_detail_error = None;
                    self.loading_poster = false;
                    KeyOutcome::LeftDetail
                },
                _ => KeyOutcome::Stay,
            },
            CurrentScreen::Exiting => match key {
                Key::Char('y') => KeyOutcome::Quit,
                Key::Char('n') => {
                    self.current_screen = CurrentScreen::Main;
                    KeyOutcome::Stay
                },
                _ => KeyOutcome::Stay,
            },
        }
    }
}


/// The message that the foreground receives for an action of a run, if any:
/// the progress report of a request, or the last message.
pub open spec fn message_of(a: FetchAction) -> Option<MovieFetchMessage> {
    match a {
        FetchAction::Fetch { progress, url } => match progress {
            Some(t) => Some(MovieFetchMessage::Progress(t)),
            None => None,
        },
        FetchAction::Pause(_) => None,
        FetchAction::Finish(m) => Some(m),
    }
}

/// A run whose first day's page arrives and whose second day's page cannot
/// be fetched: the foreground receives two progress reports and then one
/// error, never a finished schedule, and the run takes no further event.
/// Taking in those messages leaves the schedule on show as it was before the
/// run.
pub proof fn lemma_failed_second_day_keeps_schedule(
    r0: FetchRun,
    r1: FetchRun,
    r2: FetchRun,
    r3: FetchRun,
    r4: FetchRun,
    e1: FetchEvent,
    e2: FetchEvent,
    e3: FetchEvent,
    e4: FetchEvent,
    a1: FetchAction,
    a2: FetchAction,
    a3: FetchAction,
    a4: FetchAction,
    app0: App,
    app1: App,
    app2: App,
    app3: App,
    now1: i64,
    now2: i64,
    now3: i64,
    k1: FetchReceipt,
    k2: FetchReceipt,
    k3: FetchReceipt,
)
    requires
        r0.phase == FetchPhase::Discovering,
        FetchRun::step_spec(&r0, &r1, e1, a1),
        e1 is Page || e1 is Failed,
        r1.days@.len() >= 2,
        FetchRun::step_spec(&r1, &r2, e2, a2),
        e2 is Page,
        FetchRun::step_spec(&r2, &r3, e3, a3),
        e3 is Resumed,
        FetchRun::step_spec(&r3, &r4, e4, a4),
        e4 is Failed,
        message_of(a1) matches Some(m1) && App::receive_spec(&app0, &app1, m1, now1, k1),
        message_of(a3) matches Some(m3) && App::receive_spec(&app1, &app2, m3, now2, k2),
        message_of(a4) matches Some(m4) && App::receive_spec(&app2, &app3, m4, now3, k3),
    ensures
        message_of(a1) matches Some(m) && m is Progress,
        message_of(a2) is None,
        message_of(a3) matches Some(m) && m is Progress,
        message_of(a4) matches Some(m) && m is Error,
        r4.phase == FetchPhase::Done,
        k1 == FetchReceipt::Progress && k2 == FetchReceipt::Progress && k3 == FetchReceipt::Failed,
        app3.ritz_movie_times@ == app0.ritz_movie_times@,
        app3.available_dates@ == app0.available_dates@,
        !app3.loading_movies,
{
    assert(r1.phase == FetchPhase::Fetching(0));
    assert(r2.phase == FetchPhase::Pausing(1));
    assert(r3.phase == FetchPhase::Fetching(1));
}

} // verus!
