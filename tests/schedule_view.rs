use cinema_tui::detail::{detail_outcome, detail_url, poster_wanted, MovieDetailMessage, Rating, Welcome};
use cinema_tui::schedule::{available_dates, filtered_by_date, is_stale, sorted_movies, Schedule, Showtime};
use cinema_tui::state::{wrapped_next, App, CurrentScreen, FetchReceipt, Key, KeyOutcome};
use cinema_tui::fetch::MovieFetchMessage;
use cinema_tui::text::{decimal_text, same_text, strip_prefix, text_le_exec, trim};

const D: i64 = 738886;

fn at(day: i64, minute: u32) -> Showtime {
    Showtime { day, minute }
}

fn sample() -> Schedule {
    let mut s = Schedule::new();
    s.add_showtime("cherry", at(D + 1, 600));
    s.add_showtime("Banana", at(D, 700));
    s.add_showtime("apple", at(D + 2, 800));
    s.add_showtime("Banana", at(D + 1, 900));
    s.add_showtime("apple", at(D, 1000));
    s
}

fn titles(v: &[(String, Vec<Showtime>)]) -> Vec<&str> {
    v.iter().map(|e| e.0.as_str()).collect()
}

fn welcome(poster: &str, response: &str) -> Welcome {
    let t = |s: &str| s.to_string();
    Welcome {
        title: t("Heat"), year: t("1995"), rated: t("R"), released: t("15 Dec 1995"), runtime: t("170 min"),
        genre: t("Crime"), director: t("Michael Mann"), writer: t("Michael Mann"), actors: t("Al Pacino"),
        plot: t("A heist."), language: t("English"), country: t("USA"), awards: t("N/A"), poster: t(poster),
        ratings: vec![Rating { source: t("Internet Movie Database"), value: t("8.3/10") }],
        metascore: t("76"), imdb_rating: t("8.3"), imdb_votes: t("700,000"), imdb_id: t("tt0113277"),
        welcome_type: t("movie"), dvd: t("N/A"), box_office: t("N/A"), production: t("N/A"), website: t("N/A"),
        response: t(response),
    }
}

#[test]
fn add_showtime_appends_under_existing_title() {
    let s = sample();
    assert_eq!(titles(&s.movies), vec!["cherry", "Banana", "apple"]);
    assert_eq!(s.movies[1].1, vec![at(D, 700), at(D + 1, 900)]);
}

#[test]
fn available_dates_sorted_and_distinct() {
    let s = sample();
    let first = available_dates(&s);
    assert_eq!(first, vec![D, D + 1, D + 2]);
    let second = available_dates(&s);
    assert_eq!(first, second);
    assert!(available_dates(&Schedule::new()).is_empty());
}

#[test]
fn filtered_by_date_keeps_day_and_sorts_by_title() {
    let s = sample();
    let day0 = filtered_by_date(&s, D);
    assert_eq!(titles(&day0), vec!["apple", "Banana"]);
    assert_eq!(day0[0].1, vec![at(D, 1000)]);
    assert_eq!(day0[1].1, vec![at(D, 700)]);
    for d in [D - 1, D, D + 1, D + 2, D + 3] {
        for e in filtered_by_date(&s, d) {
            assert!(!e.1.is_empty());
        }
    }
    assert!(filtered_by_date(&s, D + 3).is_empty());
}

#[test]
fn sorted_movies_case_insensitive() {
    let s = sample();
    let all = sorted_movies(&s);
    assert_eq!(titles(&all), vec!["apple", "Banana", "cherry"]);
    assert_eq!(all[0].1, vec![at(D + 2, 800), at(D, 1000)]);
}

#[test]
fn staleness_of_earliest_day() {
    assert!(is_stale(&vec![D - 1], D));
    assert!(!is_stale(&vec![D], D));
    assert!(!is_stale(&vec![D + 1], D));
    assert!(!is_stale(&Vec::new(), D));
    assert!(is_stale(&vec![D - 3, D + 1], D));
}

#[test]
fn app_selection_wraps() {
    let mut app = App::new(None);
    app.show_schedule(sample(), 0);
    assert_eq!(app.available_dates, vec![D, D + 1, D + 2]);
    assert_eq!(app.get_selected_date(), Some(D));
    assert_eq!(app.get_selected_movie_name(), Some("apple".to_string()));
    app.next_movie();
    assert_eq!(app.get_selected_movie_name(), Some("Banana".to_string()));
    app.next_movie();
    assert_eq!(app.selected_movie_index, 0);
    app.previous_movie();
    assert_eq!(app.selected_movie_index, 1);
    app.previous_date();
    assert_eq!(app.get_selected_date(), Some(D + 2));
    assert_eq!(app.selected_movie_index, 0);
    app.next_date();
    assert_eq!(app.get_selected_date(), Some(D));
    assert!(app.is_update_recommended(D + 1));
    assert!(!app.is_update_recommended(D));
    assert_eq!(wrapped_next(2, 3), 0);
    assert_eq!(wrapped_next(5, 3), 0);
}

#[test]
fn app_without_schedule_selects_nothing() {
    let mut app = App::new(None);
    assert_eq!(app.get_selected_date(), None);
    assert!(app.get_filtered_movies().is_empty());
    assert_eq!(app.get_selected_movie_name(), None);
    app.next_movie();
    app.next_date();
    assert_eq!(app.selected_movie_index, 0);
    assert_eq!(app.selected_date_index, 0);
    assert!(!app.is_update_recommended(D));
}

#[test]
fn completed_run_replaces_schedule() {
    let mut app = App::new(None);
    assert!(app.fetch_movies());
    assert!(!app.fetch_movies());
    assert_eq!(app.handle_fetch_message(MovieFetchMessage::Progress("Getting movie times for today".to_string()), 10), FetchReceipt::Progress);
    assert_eq!(app.loading_messages, vec!["Getting movie times for today".to_string()]);
    assert_eq!(app.handle_fetch_message(MovieFetchMessage::Complete(sample()), 99), FetchReceipt::Completed);
    assert_eq!(app.last_updated, Some(99));
    assert!(!app.loading_movies);
    assert!(app.loading_messages.is_empty());
    assert_eq!(app.available_dates, vec![D, D + 1, D + 2]);
    assert_eq!(app.selected_movie_index, 0);
}

#[test]
fn last_updated_display() {
    let mut app = App::new(None);
    assert_eq!(app.get_last_updated_display(1000), "Never");
    app.last_updated = Some(1000);
    assert_eq!(app.get_last_updated_display(1030), "Just now");
    assert_eq!(app.get_last_updated_display(900), "Just now");
    assert_eq!(app.get_last_updated_display(1000 + 5 * 60 + 7), "5 min ago");
    assert_eq!(app.get_last_updated_display(1000 + 3 * 3600 + 59), "3 hr ago");
    assert_eq!(app.get_last_updated_display(1000 + 2 * 86400 + 5), "2 days ago");
}

#[test]
fn keys_on_main_screen() {
    let mut app = App::new(None);
    app.show_schedule(sample(), 0);
    assert!(matches!(app.handle_key(Key::Char('q')), KeyOutcome::Quit));
    assert!(matches!(app.handle_key(Key::Char('g')), KeyOutcome::FetchMovies));
    assert!(matches!(app.handle_key(Key::Char('g')), KeyOutcome::Stay));
    assert!(matches!(app.handle_key(Key::Char('j')), KeyOutcome::Stay));
    assert_eq!(app.selected_movie_index, 1);
    match app.handle_key(Key::Enter) {
        KeyOutcome::LookupDetail(name) => assert_eq!(name, "Banana"),
        _ => panic!("expected a lookup"),
    }
    assert_eq!(app.current_screen, CurrentScreen::MovieDetail);
    assert!(matches!(app.handle_key(Key::Char('b')), KeyOutcome::LeftDetail));
    assert_eq!(app.current_screen, CurrentScreen::Main);
}

#[test]
fn keys_while_searching() {
    let mut app = App::new(None);
    app.handle_key(Key::Char('m'));
    assert!(app.searching);
    app.handle_key(Key::Char('h'));
    app.handle_key(Key::Char('i'));
    app.handle_key(Key::Char('x'));
    app.handle_key(Key::Backspace);
    assert_eq!(app.search_term, "hi");
    assert!(matches!(app.handle_key(Key::Char('q')), KeyOutcome::Stay));
    app.handle_key(Key::Esc);
    assert!(!app.searching);
    assert_eq!(app.search_term, "");
}

#[test]
fn exit_prompt_keys() {
    let mut app = App::new(None);
    app.current_screen = CurrentScreen::Exiting;
    assert!(matches!(app.handle_key(Key::Char('q')), KeyOutcome::Stay));
    assert!(matches!(app.handle_key(Key::Char('n')), KeyOutcome::Stay));
    assert_eq!(app.current_screen, CurrentScreen::Main);
    app.current_screen = CurrentScreen::Exiting;
    assert!(matches!(app.handle_key(Key::Char('y')), KeyOutcome::Quit));
}

#[test]
fn detail_lookup_needs_key() {
    let mut app = App::new(None);
    assert_eq!(app.fetch_movie_detail(), None);
    assert_eq!(app.movie_detail_error, Some("API key not set".to_string()));
    let mut keyed = App::new(Some("k123".to_string()));
    assert_eq!(keyed.fetch_movie_detail(), Some("k123".to_string()));
    assert!(keyed.loading_movie_detail);
}

#[test]
fn detail_messages_and_poster() {
    let mut app = App::new(Some("k".to_string()));
    let poster = app.handle_detail_message(MovieDetailMessage::Complete(welcome("http://img/heat.jpg", "True")));
    assert_eq!(poster, Some("http://img/heat.jpg".to_string()));
    assert!(app.loading_poster);
    app.poster_done();
    assert!(!app.loading_poster);
    assert_eq!(app.handle_detail_message(MovieDetailMessage::Complete(welcome("N/A", "True"))), None);
    assert_eq!(app.handle_detail_message(MovieDetailMessage::Error("boom".to_string())), None);
    assert_eq!(app.movie_detail_error, Some("boom".to_string()));
    assert!(!poster_wanted(""));
}

#[test]
fn detail_outcome_not_found() {
    match detail_outcome(welcome("N/A", "False"), "Nope") {
        MovieDetailMessage::Error(e) => assert_eq!(e, "Movie not found: Nope"),
        _ => panic!("expected an error"),
    }
    assert!(matches!(detail_outcome(welcome("N/A", "True"), "Heat"), MovieDetailMessage::Complete(_)));
}

#[test]
fn detail_url_percent_encodes_title() {
    assert_eq!(
        detail_url("KEY", "The Matrix: Reloaded"),
        "http://www.omdbapi.com/?apikey=KEY&t=The%20Matrix%3A%20Reloaded"
    );
    assert_eq!(detail_url("K", "Amélie"), "http://www.omdbapi.com/?apikey=K&t=Am%C3%A9lie");
    assert_eq!(detail_url("K", "a-b_c.d~e"), "http://www.omdbapi.com/?apikey=K&t=a-b_c.d~e");
}

#[test]
fn text_helpers() {
    assert_eq!(decimal_text(0), "0");
    assert_eq!(decimal_text(1234567), "1234567");
    assert_eq!(strip_prefix("/now-showing/x", "/now-showing/"), Some("x".to_string()));
    assert_eq!(strip_prefix("/now", "/now-showing/"), None);
    assert!(text_le_exec("apple", "banana"));
    assert!(!text_le_exec("b", "a"));
    assert!(text_le_exec("ab", "ab"));
    assert!(text_le_exec("ab", "abc"));
    assert!(same_text("today", "today"));
    assert!(!same_text("today", "Today"));
}

#[test]
fn app_sorted_movies_cover_all_days() {
    let mut app = App::new(None);
    app.show_schedule(sample(), 0);
    let all = app.get_sorted_movies();
    assert_eq!(titles(&all), vec!["apple", "Banana", "cherry"]);
    assert_eq!(all[1].1, vec![at(D, 700), at(D + 1, 900)]);
}

#[test]
fn trim_strips_white_space_at_both_ends() {
    assert_eq!(trim("  Dune \t\n"), "Dune");
    assert_eq!(trim("\u{3000}Ran\u{a0}"), "Ran");
    assert_eq!(trim("   "), "");
    assert_eq!(trim(""), "");
    assert_eq!(trim("a b"), "a b");
}

#[test]
fn keys_move_back_and_edit_search() {
    let mut app = App::new(None);
    app.show_schedule(sample(), 0);
    app.handle_key(Key::Char('k'));
    assert_eq!(app.selected_movie_index, 1);
    app.handle_key(Key::Up);
    assert_eq!(app.selected_movie_index, 0);
    app.handle_key(Key::Char('h'));
    assert_eq!(app.get_selected_date(), Some(D + 2));
    app.handle_key(Key::Left);
    assert_eq!(app.get_selected_date(), Some(D + 1));
    app.handle_key(Key::Char('m'));
    app.handle_key(Key::Backspace);
    assert_eq!(app.search_term, "");
    assert!(app.searching);
}

#[test]
fn refresh_key_while_loading_keeps_progress() {
    let mut app = App::new(None);
    assert!(matches!(app.handle_key(Key::Char('g')), KeyOutcome::FetchMovies));
    app.handle_fetch_message(MovieFetchMessage::Progress("p1".to_string()), 1);
    assert!(matches!(app.handle_key(Key::Char('g')), KeyOutcome::Stay));
    assert_eq!(app.loading_messages, vec!["p1".to_string()]);
    app.handle_fetch_message(MovieFetchMessage::Error("down".to_string()), 2);
    assert_eq!(app.loading_messages, vec!["p1".to_string(), "Error: down".to_string()]);
}
