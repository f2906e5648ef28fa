use cinema_tui::fetch::{
    add_listing, FetchAction, FetchEvent, FetchPhase, FetchRun, MovieFetchMessage, MAX_PAUSE_MS, MIN_PAUSE_MS,
    UNEXPECTED_EVENT,
};
use cinema_tui::listing::{label_from_target, parse_showtimes_from_html, scrape_available_day_endpoints};
use cinema_tui::schedule::{Schedule, Showtime};
use cinema_tui::state::{App, FetchReceipt};

const MONDAY: i64 = 738886;

const TWO_ROW_PAGE: &str = r#"<html><body><ul>
<li class="Stack"><span class="Title"><a href="/movie/dune">  Dune: Part Two </a></span>
  <span class="Time">2:00 pm</span><span class="Time">7:15 pm</span></li>
<li class="Stack"><span class="Title">No link here</span><span class="Time">1:00 pm</span></li>
</ul></body></html>"#;

fn root_page(labels: &[&str]) -> String {
    let mut html = String::from("<html><body><div class=\"swiper\">");
    for l in labels {
        html.push_str(&format!("<div class=\"swiper-slide\"><a href=\"/now-showing/{}\">{}</a></div>", l, l));
    }
    html.push_str("</div></body></html>");
    html
}

fn expect_fetch(a: FetchAction) -> (Option<String>, String) {
    match a {
        FetchAction::Fetch { progress, url } => (progress, url),
        _ => panic!("expected a request"),
    }
}

#[test]
fn listing_parser_keeps_titled_rows() {
    let rows = parse_showtimes_from_html(TWO_ROW_PAGE);
    assert_eq!(rows, vec![("Dune: Part Two".to_string(), vec!["2:00 pm".to_string(), "7:15 pm".to_string()])]);
}

#[test]
fn listing_parser_edge_rows() {
    let html = r#"<ul>
<li class="Stack"><span class="Title"><a>   </a></span><span class="Time">3:00 pm</span></li>
<li class="Stack"><span class="Title"><a>Alien</a></span></li>
<li class="Stack"><span class="Title"><a>Brazil</a><a>Second</a></span><span class="Time"> 6:00 pm </span><span class="Time">  </span></li>
<li class="Stack"><span class="Title"><a>Alien</a></span><span class="Time">9:00 pm</span></li>
</ul>"#;
    let rows = parse_showtimes_from_html(html);
    assert_eq!(
        rows,
        vec![
            ("Alien".to_string(), Vec::<String>::new()),
            ("Brazil".to_string(), vec!["6:00 pm".to_string()]),
            ("Alien".to_string(), vec!["9:00 pm".to_string()]),
        ]
    );
    assert!(parse_showtimes_from_html("").is_empty());
    assert!(parse_showtimes_from_html("<p>closed</p>").is_empty());
}

#[test]
fn endpoint_discovery_filters_labels() {
    let html = r#"<div class="swiper-slide"><a href="/now-showing/all">All</a></div>
<div class="swiper-slide"><a href="/now-showing/today">Today</a></div>
<div class="swiper-slide"><a href="/now-showing/">Empty</a></div>
<div class="swiper-slide"><a href="https://elsewhere/now-showing/monday">Away</a></div>
<div class="swiper-slide"><a href="/now-showing/friday">Fri</a></div>
<div class="other"><a href="/now-showing/saturday">Sat</a></div>
<div class="swiper-slide"><a href="/now-showing/today">Again</a></div>"#;
    let labels = scrape_available_day_endpoints(html).unwrap();
    assert_eq!(labels, vec!["today".to_string(), "friday".to_string(), "today".to_string()]);
    assert_eq!(scrape_available_day_endpoints("<p></p>"), Some(Vec::new()));
}

#[test]
fn label_from_link_target() {
    assert_eq!(label_from_target(&Some("/now-showing/sunday".to_string())), Some("sunday".to_string()));
    assert_eq!(label_from_target(&Some("/now-showing/all".to_string())), None);
    assert_eq!(label_from_target(&Some("/coming-soon/sunday".to_string())), None);
    assert_eq!(label_from_target(&None), None);
}

#[test]
fn add_listing_skips_malformed_times() {
    let mut s = Schedule::new();
    let rows = vec![
        ("Heat".to_string(), vec!["1:00 pm".to_string(), "later".to_string(), "9:30 pm".to_string()]),
        ("Heat".to_string(), vec!["11:00 am".to_string()]),
        ("Ran".to_string(), Vec::new()),
    ];
    add_listing(&mut s, &rows, MONDAY);
    assert_eq!(s.len(), 1);
    assert_eq!(s.movies[0].0, "Heat");
    assert_eq!(
        s.movies[0].1,
        vec![
            Showtime { day: MONDAY, minute: 780 },
            Showtime { day: MONDAY, minute: 1290 },
            Showtime { day: MONDAY, minute: 660 }
        ]
    );
}

#[test]
fn single_day_run_builds_schedule() {
    let (mut run, first) = FetchRun::start(MONDAY);
    let (progress, url) = expect_fetch(first);
    assert_eq!(progress, None);
    assert_eq!(url, "https://www.ritzcinemas.com.au/now-showing");
    let a = run.step(FetchEvent::Page(root_page(&["all", "today"])));
    let (progress, url) = expect_fetch(a);
    assert_eq!(progress, Some("Getting movie times for today".to_string()));
    assert_eq!(url, "https://www.ritzcinemas.com.au/now-showing/today");
    match run.step(FetchEvent::Page(TWO_ROW_PAGE.to_string())) {
        FetchAction::Finish(MovieFetchMessage::Complete(s)) => {
            assert_eq!(s.len(), 1);
            assert_eq!(s.movies[0].0, "Dune: Part Two");
            assert_eq!(s.movies[0].1, vec![Showtime { day: MONDAY, minute: 840 }, Showtime { day: MONDAY, minute: 1155 }]);
        },
        _ => panic!("expected the finished schedule"),
    }
    assert_eq!(run.phase, FetchPhase::Done);
}

#[test]
fn discovery_failure_falls_back_to_fixed_week() {
    let (mut run, _) = FetchRun::start(MONDAY);
    let (progress, url) = expect_fetch(run.step(FetchEvent::Failed("offline".to_string())));
    assert_eq!(progress, Some("Getting movie times for today".to_string()));
    assert_eq!(url, "https://www.ritzcinemas.com.au/now-showing/today");
    assert_eq!(run.days.len(), 7);
    assert_eq!(run.days[2], (MONDAY + 2, "wednesday".to_string()));
}

#[test]
fn pause_between_days_is_bounded() {
    let (mut run, _) = FetchRun::start(MONDAY);
    run.step(FetchEvent::Page(root_page(&["today", "friday"])));
    match run.step(FetchEvent::Page(TWO_ROW_PAGE.to_string())) {
        FetchAction::Pause(ms) => assert!((MIN_PAUSE_MS..=MAX_PAUSE_MS).contains(&ms)),
        _ => panic!("expected a pause"),
    }
    assert_eq!(run.phase, FetchPhase::Pausing(1));
    let (progress, url) = expect_fetch(run.step(FetchEvent::Resumed));
    assert_eq!(progress, Some("Getting movie times for friday".to_string()));
    assert_eq!(url, "https://www.ritzcinemas.com.au/now-showing/friday");
}

#[test]
fn unexpected_event_ends_run() {
    let (mut run, _) = FetchRun::start(MONDAY);
    match run.step(FetchEvent::Resumed) {
        FetchAction::Finish(MovieFetchMessage::Error(e)) => assert_eq!(e, UNEXPECTED_EVENT),
        _ => panic!("expected an error"),
    }
    assert_eq!(run.phase, FetchPhase::Done);
}

#[test]
fn failure_on_second_day_keeps_previous_schedule() {
    let mut app = App::new(None);
    let mut before = Schedule::new();
    before.add_showtime("Old Movie", Showtime { day: MONDAY - 1, minute: 600 });
    app.show_schedule(before, 1000);
    assert!(app.fetch_movies());

    let (mut run, _) = FetchRun::start(MONDAY);
    let mut messages = Vec::new();
    let mut event = FetchEvent::Page(root_page(&["today", "tomorrow", "wednesday", "thursday", "friday"]));
    let mut day = 0;
    loop {
        match run.step(event) {
            FetchAction::Fetch { progress, .. } => {
                if let Some(p) = progress {
                    messages.push(MovieFetchMessage::Progress(p));
                }
                day += 1;
                event = if day == 2 {
                    FetchEvent::Failed("connection reset".to_string())
                } else {
                    FetchEvent::Page(TWO_ROW_PAGE.to_string())
                };
            },
            FetchAction::Pause(_) => event = FetchEvent::Resumed,
            FetchAction::Finish(m) => {
                messages.push(m);
                break;
            },
        }
    }
    let errors = messages.iter().filter(|m| matches!(m, MovieFetchMessage::Error(_))).count();
    let completes = messages.iter().filter(|m| matches!(m, MovieFetchMessage::Complete(_))).count();
    assert_eq!(errors, 1);
    assert_eq!(completes, 0);
    let mut last = FetchReceipt::Progress;
    for m in messages {
        last = app.handle_fetch_message(m, 5000);
    }
    assert_eq!(last, FetchReceipt::Failed);
    assert_eq!(app.ritz_movie_times.len(), 1);
    assert_eq!(app.ritz_movie_times.movies[0].0, "Old Movie");
    assert_eq!(app.ritz_movie_times.movies[0].1, vec![Showtime { day: MONDAY - 1, minute: 600 }]);
    assert_eq!(app.last_updated, Some(1000));
    assert!(!app.loading_movies);
    assert_eq!(
        app.loading_messages.last().unwrap(),
        "Error: Failed to fetch tomorrow: connection reset"
    );
}

#[test]
fn discovery_without_labels_completes_empty() {
    let (mut run, _) = FetchRun::start(MONDAY);
    match run.step(FetchEvent::Page(root_page(&["all"]))) {
        FetchAction::Finish(MovieFetchMessage::Complete(s)) => assert_eq!(s.len(), 0),
        _ => panic!("expected an empty schedule"),
    }
    assert!(run.days.is_empty());
    assert_eq!(run.phase, FetchPhase::Done);
}
