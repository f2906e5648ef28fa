use cinema_tui::cache::{decode_snapshot, encode_snapshot, CACHE_HEADER};
use cinema_tui::schedule::{Schedule, Showtime};

fn sample() -> Schedule {
    let mut s = Schedule::new();
    s.add_showtime("Dune: Part Two", Showtime { day: 738886, minute: 840 });
    s.add_showtime("Amélie \"extended\"\n", Showtime { day: -5, minute: 0 });
    s.add_showtime("Dune: Part Two", Showtime { day: 738887, minute: 1155 });
    s.add_showtime("", Showtime { day: i64::MIN, minute: u32::MAX });
    s.add_showtime("Max", Showtime { day: i64::MAX, minute: 1439 });
    s
}

#[test]
fn snapshot_round_trip() {
    let s = sample();
    let text = encode_snapshot(&s, 1_729_300_000);
    let (back, updated) = decode_snapshot(&text).unwrap();
    assert_eq!(updated, 1_729_300_000);
    assert_eq!(back.movies, s.movies);
}

#[test]
fn empty_snapshot_round_trip() {
    let text = encode_snapshot(&Schedule::new(), -42);
    assert!(text.starts_with(CACHE_HEADER));
    let (back, updated) = decode_snapshot(&text).unwrap();
    assert_eq!(updated, -42);
    assert!(back.movies.is_empty());
}

#[test]
fn snapshot_text_layout() {
    let mut s = Schedule::new();
    s.add_showtime("Up", Showtime { day: 7, minute: 90 });
    let text = encode_snapshot(&s, 5);
    assert_eq!(
        text,
        "cinema-cache 1\n+0000000000000000005M00000000000000000002Up00000000000000000001+00000000000000000070000000090"
    );
}

#[test]
fn damaged_snapshots_are_rejected() {
    let text = encode_snapshot(&sample(), 9);
    assert!(decode_snapshot("").is_none());
    assert!(decode_snapshot("{\"movie_times\":{},\"last_updated\":\"2024-01-01T00:00:00+10:00\"}").is_none());
    assert!(decode_snapshot(&text[..text.len() - 1]).is_none());
    assert!(decode_snapshot(&format!("{}x", text)).is_none());
    let negative_zero = "cinema-cache 1\n-0000000000000000000";
    assert!(decode_snapshot(negative_zero).is_none());
}

#[test]
fn repeated_title_is_rejected() {
    let one = "M00000000000000000001A00000000000000000000";
    let text = format!("cinema-cache 1\n+0000000000000000001{}{}", one, one);
    assert!(decode_snapshot(&text).is_none());
    let single = format!("cinema-cache 1\n+0000000000000000001{}", one);
    let (s, t) = decode_snapshot(&single).unwrap();
    assert_eq!(t, 1);
    assert_eq!(s.movies, vec![("A".to_string(), Vec::new())]);
}
