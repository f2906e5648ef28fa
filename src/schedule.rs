//! The schedule: movie titles, each with the showtimes found for it, and the
//! views that a front end derives from it.
use vstd::prelude::*;
use crate::clock::{lower_of, lowercase};
use crate::text::{text_le, text_le_exec, lemma_text_le_total, lemma_text_le_transitive};

verus! {

/// The start of one screening: a day number and the minutes from that day's
/// local midnight.
#[derive(Clone, Copy, Debug, PartialEq, Eq, Structural)]
pub struct Showtime {
    pub day: i64,
    pub minute: u32,
}

impl Showtime {
    /// A showtime that lies within its day.
    pub open spec fn valid(&self) -> bool {
        self.minute < 1440
    }
}

/// The showtime `minutes` after midnight of day `day`.
pub fn absolute_showtime(day: i64, minutes: i64) -> (r: Showtime)
    requires
        0 <= minutes < 1440,
    ensures
        r.day == day,
        r.minute == minutes,
        r.valid(),
{
    Showtime { day, minute: minutes as u32 }
}

/// One movie's entry: its title and its showtimes.
pub type MovieEntry = (String, Vec<Showtime>);

/// An entry as plain values.
pub open spec fn entry_view(e: MovieEntry) -> (Seq<char>, Seq<Showtime>) {
    (e.0@, e.1@)
}

/// Entries as plain values.
pub open spec fn entries_view(v: Seq<MovieEntry>) -> Seq<(Seq<char>, Seq<Showtime>)> {
    v.map_values(|e: MovieEntry| entry_view(e))
}

/// No title stands in two entries.
pub open spec fn titles_unique(s: Seq<(Seq<char>, Seq<Showtime>)>) -> bool {
    forall|i: int, j: int| 0 <= i < j < s.len() ==> #[trigger] s[i].0 != #[trigger] s[j].0
}

/// Whether some entry has the title.
pub open spec fn has_title(s: Seq<(Seq<char>, Seq<Showtime>)>, title: Seq<char>) -> bool {
    exists|i: int| 0 <= i < s.len() && #[trigger] s[i].0 == title
}

/// The entries after one showtime is added under `title`: to the entry of
/// that title where there is one, else in a new entry at the end.
pub open spec fn with_showtime(
    s: Seq<(Seq<char>, Seq<Showtime>)>,
    title: Seq<char>,
    t: Showtime,
) -> Seq<(Seq<char>, Seq<Showtime>)> {
    if has_title(s, title) {
        let i = choose|i: int| 0 <= i < s.len() && #[trigger] s[i].0 == title;
        s.update(i, (title, s[i].1.push(t)))
    } else {
        s.push((title, seq![t]))
    }
}

/// A mapping from movie title to showtimes, kept as entries in the order in
/// which their titles were first seen.
pub struct Schedule {
    pub movies: Vec<MovieEntry>,
}

impl View for Schedule {
    type V = Seq<(Seq<char>, Seq<Showtime>)>;

    open spec fn view(&self) -> Seq<(Seq<char>, Seq<Showtime>)> {
        entries_view(self.movies@)
    }
}

impl Schedule {
    /// Titles are unique.
    pub open spec fn well_formed(&self) -> bool {
        titles_unique(self@)
    }

    /// The schedule without movies.
    pub fn new() -> (r: Schedule)
        ensures
            r@ == Seq::<(Seq<char>, Seq<Showtime>)>::empty(),
            r.well_formed(),
    {
        let r = Schedule { movies: Vec::new() };
        assert(r@ =~= Seq::<(Seq<char>, Seq<Showtime>)>::empty());
        r
    }

    /// Whether no title stands in two entries.
    pub fn is_well_formed(&self) -> (r: bool)
        ensures
            r == self.well_formed(),
    {
        let n = self.movies.len();
        let mut i: usize = 0;
        while i < n
            invariant
                n == self@.len(),
                i <= n,
                forall|a: int, b: int| 0 <= a < b < n && a < i ==> #[trigger] self@[a].0 != #[trigger] self@[b].0,
            decreases n - i,
        {
            let mut j: usize = i + 1;
            while j < n
                invariant
                    n == self@.len(),
                    i < n,
                    i < j <= n,
                    forall|a: int, b: int| 0 <= a < b < n && a < i ==> #[trigger] self@[a].0 != #[trigger] self@[b].0,
                    forall|b: int| i < b < j ==> self@[i as int].0 != #[trigger] self@[b].0,
                decreases n - j,
            {
                if crate::text::same_text(self.movies[i].0.as_str(), self.movies[j].0.as_str()) {
                    assert(self@[i as int].0 == self@[j as int].0);
                    return false;
                }
                j = j + 1;
            }
            i = i + 1;
        }
        true
    }

    /// Number of titles.
    pub fn len(&self) -> (r: usize)
        ensures
            r == self@.len(),
    {
        self.movies.len()
    }

    /// Adds one showtime under `title`, creating the title's entry on first
    /// use.
    pub fn add_showtime(&mut self, title: &str, t: Showtime)
        requires
            old(self).well_formed(),
        ensures
            final(self).well_formed(),
            final(self)@ == with_showtime(old(self)@, title@, t),
    {
        let ghost s0 = self@;
        let ghost m0 = self.movies@;
        let n = self.movies.len();
        let mut i: usize = 0;
        while i < n
            invariant
                n == self.movies@.len(),
                self@ == s0,
                self.movies@ == m0,
                old(self)@ == s0,
                titles_unique(s0),
                i <= n,
                forall|j: int| 0 <= j < i ==> #[trigger] s0[j].0 != title@,
            decreases n - i,
        {
            if crate::text::same_text(self.movies[i].0.as_str(), title) {
                assert(s0[i as int].0 == title@);
                let mut entry = self.movies.remove(i);
                entry.1.push(t);
                self.movies.insert(i, entry);
                proof {
                    assert(self.movies@ =~= m0.update(i as int, entry));
                    assert(has_title(s0, title@));
                    let k = choose|k: int| 0 <= k < s0.len() && #[trigger] s0[k].0 == title@;
                    assert(k == i);
                    assert(self@ =~= s0.update(i as int, (title@, s0[i as int].1.push(t))));
                }
                return;
            }
            i = i + 1;
        }
        let mut times: Vec<Showtime> = Vec::new();
        times.push(t);
        self.movies.push((title.to_owned(), times));
        proof {
            assert(!has_title(s0, title@));
            assert(self@ =~= s0.push((title@, seq![t])));
        }
    }
}


/// Some showtime of the schedule falls on day `d`.
pub open spec fn has_day(s: Seq<(Seq<char>, Seq<Showtime>)>, d: int) -> bool {
    exists|i: int, j: int|
        0 <= i < s.len() && 0 <= j < s[i].1.len() && #[trigger] s[i].1[j].day == d
}

/// Each day comes before the next.
pub open spec fn strictly_increasing(v: Seq<i64>) -> bool {
    forall|i: int, j: int| 0 <= i < j < v.len() ==> v[i] < v[j]
}

/// `v` lists the days of the schedule's showtimes, each once, in ascending
/// order.
pub open spec fn is_day_index(s: Seq<(Seq<char>, Seq<Showtime>)>, v: Seq<i64>) -> bool {
    &&& strictly_increasing(v)
    &&& forall|d: i64| #[trigger] v.contains(d) <==> has_day(s, d as int)
}

/// Some showtime before position (`i`, `j`) falls on day `d`.
spec fn day_seen(s: Seq<(Seq<char>, Seq<Showtime>)>, d: int, i: int, j: int) -> bool {
    exists|a: int, b: int|
        0 <= a < s.len() && 0 <= b < s[a].1.len() && (a < i || (a == i && b < j))
            && #[trigger] s[a].1[b].day == d
}

/// Adds day `d` to an ascending list of distinct days, where it is missing.
fn insert_day(v: &mut Vec<i64>, d: i64)
    requires
        strictly_increasing(old(v)@),
    ensures
        strictly_increasing(final(v)@),
        forall|x: i64| #[trigger] final(v)@.contains(x) <==> (old(v)@.contains(x) || x == d),
{
    let n = v.len();
    let mut i: usize = 0;
    while i < n && v[i] < d
        invariant
            n == v@.len(),
            i <= n,
            v@ == old(v)@,
            forall|k: int| 0 <= k < i ==> v@[k] < d,
        decreases n - i,
    {
        i = i + 1;
    }
    if i < n && v[i] == d {
        return;
    }
    let ghost before = v@;
    v.insert(i, d);
    proof {
        assert forall|x: i64| #[trigger] v@.contains(x) implies (before.contains(x) || x == d) by {
            let k = choose|k: int| 0 <= k < v@.len() && v@[k] == x;
            if k < i {
                assert(before[k] == x);
            } else if k > i {
                assert(before[k - 1] == x);
            }
        }
        assert forall|x: i64| (before.contains(x) || x == d) implies #[trigger] v@.contains(x) by {
            if x == d {
                assert(v@[i as int] == d);
            } else {
                let k = choose|k: int| 0 <= k < before.len() && before[k] == x;
                if k < i {
                    assert(v@[k] == x);
                } else {
                    assert(v@[k + 1] == x);
                }
            }
        }
    }
}

/// The days on which the schedule has showtimes, each once, ascending.
pub fn available_dates(schedule: &Schedule) -> (r: Vec<i64>)
    ensures
        is_day_index(schedule@, r@),
{
    let ghost s = schedule@;
    let mut days: Vec<i64> = Vec::new();
    let n = schedule.movies.len();
    let mut i: usize = 0;
    while i < n
        invariant
            n == s.len(),
            s == schedule@,
            i <= n,
            strictly_increasing(days@),
            forall|d: i64| #[trigger] days@.contains(d) <==> day_seen(s, d as int, i as int, 0),
        decreases n - i,
    {
        let times = &schedule.movies[i].1;
        let m = times.len();
        assert(s[i as int].1 == times@);
        let mut j: usize = 0;
        while j < m
            invariant
                n == s.len(),
                s == schedule@,
                i < n,
                m == times@.len(),
                s[i as int].1 == times@,
                j <= m,
                strictly_increasing(days@),
                forall|d: i64| #[trigger] days@.contains(d) <==> day_seen(s, d as int, i as int, j as int),
            decreases m - j,
        {
            let day = times[j].day;
            let ghost before = days@;
            insert_day(&mut days, day);
            proof {
                assert forall|d: i64| #[trigger] days@.contains(d) <==> day_seen(s, d as int, i as int, j + 1) by {
                    if day_seen(s, d as int, i as int, j + 1) && d != day {
                        let (a, b) = choose|a: int, b: int|
                            0 <= a < s.len() && 0 <= b < s[a].1.len() && (a < i || (a == i && b < j + 1))
                                && #[trigger] s[a].1[b].day == d;
                        assert(day_seen(s, d as int, i as int, j as int));
                    }
                    if d == day {
                        assert(s[i as int].1[j as int].day == d);
                    }
                    if before.contains(d) {
                        let (a, b) = choose|a: int, b: int|
                            0 <= a < s.len() && 0 <= b < s[a].1.len() && (a < i || (a == i && b < j))
                                && #[trigger] s[a].1[b].day == d;
                        assert(s[a].1[b].day == d);
                    }
                }
            }
            j = j + 1;
        }
        proof {
            assert forall|d: i64| #[trigger] days@.contains(d) <==> day_seen(s, d as int, i + 1, 0) by {
                if day_seen(s, d as int, i as int, m as int) {
                    let (a, b) = choose|a: int, b: int|
                        0 <= a < s.len() && 0 <= b < s[a].1.len() && (a < i || (a == i && b < m))
                            && #[trigger] s[a].1[b].day == d;
                    assert(s[a].1[b].day == d);
                }
                if day_seen(s, d as int, i + 1, 0) {
                    let (a, b) = choose|a: int, b: int|
                        0 <= a < s.len() && 0 <= b < s[a].1.len() && (a < i + 1 || (a == i + 1 && b < 0))
                            && #[trigger] s[a].1[b].day == d;
                    assert(s[a].1[b].day == d);
                }
            }
        }
        i = i + 1;
    }
    proof {
        assert forall|d: i64| #[trigger] days@.contains(d) <==> has_day(s, d as int) by {
            if has_day(s, d as int) {
                let (a, b) = choose|a: int, b: int|
                    0 <= a < s.len() && 0 <= b < s[a].1.len() && #[trigger] s[a].1[b].day == d;
                assert(s[a].1[b].day == d);
            }
            if day_seen(s, d as int, n as int, 0) {
                let (a, b) = choose|a: int, b: int|
                    0 <= a < s.len() && 0 <= b < s[a].1.len() && (a < n || (a == n && b < 0))
                        && #[trigger] s[a].1[b].day == d;
                assert(s[a].1[b].day == d);
            }
        }
    }
    days
}

/// A list of available days is stale on day `today` where its earliest day
/// lies before `today`. With no days there is nothing to refresh.
pub open spec fn stale(dates: Seq<i64>, today: int) -> bool {
    dates.len() > 0 && dates[0] < today
}

/// Whether a refresh is advisable: the earliest available day lies before
/// `today`.
pub fn is_stale(dates: &Vec<i64>, today: i64) -> (r: bool)
    ensures
        r == stale(dates@, today as int),
{
    dates.len() > 0 && dates[0] < today
}


/// Two ascending lists of distinct days with the same members are the same
/// list.
proof fn lemma_increasing_same_members(a: Seq<i64>, b: Seq<i64>)
    requires
        strictly_increasing(a),
        strictly_increasing(b),
        forall|x: i64| #![trigger a.contains(x)] #![trigger b.contains(x)] a.contains(x) <==> b.contains(x),
    ensures
        a == b,
    decreases a.len(),
{
    if a.len() == 0 {
        if b.len() > 0 {
            assert(b.contains(b[0]));
        }
        assert(a =~= b);
    } else {
        assert(a.contains(a[0]));
        assert(b.len() > 0);
        assert(b.contains(b[0]));
        let ka = choose|k: int| 0 <= k < a.len() && a[k] == b[0];
        let kb = choose|k: int| 0 <= k < b.len() && b[k] == a[0];
        assert(a[0] <= a[ka]);
        assert(b[0] <= b[kb]);
        assert(a[0] == b[0]);
        let ta = a.drop_first();
        let tb = b.drop_first();
        assert forall|x: i64| #![trigger ta.contains(x)] #![trigger tb.contains(x)] ta.contains(x) <==> tb.contains(x) by {
            if ta.contains(x) {
                let k = choose|k: int| 0 <= k < ta.len() && ta[k] == x;
                assert(a[k + 1] == x);
                assert(a.contains(x));
                let m = choose|m: int| 0 <= m < b.len() && b[m] == x;
                assert(m != 0);
                assert(tb[m - 1] == x);
            }
            if tb.contains(x) {
                let k = choose|k: int| 0 <= k < tb.len() && tb[k] == x;
                assert(b[k + 1] == x);
                assert(b.contains(x));
                let m = choose|m: int| 0 <= m < a.len() && a[m] == x;
                assert(m != 0);
                assert(ta[m - 1] == x);
            }
        }
        lemma_increasing_same_members(ta, tb);
        assert(a =~= b) by {
            assert forall|k: int| 0 <= k < a.len() implies a[k] == b[k] by {
                if k > 0 {
                    assert(a[k] == ta[k - 1]);
                }
            }
        }
    }
}

/// The list of available days is determined by the schedule alone: two
/// computations on one schedule give the same ascending list.
pub proof fn lemma_available_dates_deterministic(
    s: Seq<(Seq<char>, Seq<Showtime>)>,
    a: Seq<i64>,
    b: Seq<i64>,
)
    requires
        is_day_index(s, a),
        is_day_index(s, b),
    ensures
        a == b,
        strictly_increasing(a),
{
    assert forall|x: i64| #![trigger a.contains(x)] #![trigger b.contains(x)] a.contains(x) <==> b.contains(x) by {
        assert(a.contains(x) <==> has_day(s, x as int));
        assert(b.contains(x) <==> has_day(s, x as int));
    }
    lemma_increasing_same_members(a, b);
}

/// A list whose only day is the day before `today` is stale; one whose only
/// day is `today` or later is not.
pub proof fn lemma_staleness_of_single_day(d: i64, today: int)
    ensures
        d == today - 1 ==> stale(seq![d], today),
        d >= today ==> !stale(seq![d], today),
{
}


/// Entries ordered by title, case-insensitively: by the titles in lower case.
pub open spec fn sorted_by_title(v: Seq<(Seq<char>, Seq<Showtime>)>) -> bool {
    forall|i: int, j: int|
        0 <= i < j < v.len() ==> text_le(lower_of(#[trigger] v[i].0), lower_of(#[trigger] v[j].0))
}

/// `a` and `b` hold the same entries, as many of them (for entries with
/// distinct titles: the one is a reordering of the other).
pub open spec fn same_entries(
    a: Seq<(Seq<char>, Seq<Showtime>)>,
    b: Seq<(Seq<char>, Seq<Showtime>)>,
) -> bool {
    &&& a.len() == b.len()
    &&& forall|x: (Seq<char>, Seq<Showtime>)| #[trigger] a.contains(x) <==> b.contains(x)
}

/// The title of an entry in lower case, which entries are ordered by.
fn title_key(e: &MovieEntry) -> (r: String)
    ensures
        r@ == lower_of(e.0@),
{
    lowercase(e.0.as_str())
}

/// Where an entry whose title has the lower-case key `k` goes among entries
/// ordered by title: after the leading entries whose keys come before `k`
/// or equal it.
pub open spec fn insertion_point(w: Seq<(Seq<char>, Seq<Showtime>)>, k: Seq<char>) -> nat
    decreases w.len(),
{
    if w.len() == 0 {
        0
    } else if text_le(lower_of(w[0].0), k) {
        1 + insertion_point(w.drop_first(), k)
    } else {
        0
    }
}

/// The entries in title order, case-insensitively: from the last entry to
/// the first, each is put at its insertion point among those already
/// placed.
pub open spec fn title_order(v: Seq<(Seq<char>, Seq<Showtime>)>) -> Seq<(Seq<char>, Seq<Showtime>)>
    decreases v.len(),
{
    if v.len() == 0 {
        seq![]
    } else {
        let w = title_order(v.drop_first());
        w.insert(insertion_point(w, lower_of(v[0].0)) as int, v[0])
    }
}

/// The entries ordered by title, case-insensitively.
pub fn sort_by_title(entries: Vec<MovieEntry>) -> (r: Vec<MovieEntry>)
    ensures
        entries_view(r@) == title_order(entries_view(entries@)),
        sorted_by_title(entries_view(r@)),
        same_entries(entries_view(r@), entries_view(entries@)),
{
    let ghost orig = entries_view(entries@);
    let ghost n = entries@.len();
    let mut rest = entries;
    let mut out: Vec<MovieEntry> = Vec::new();
    assert(orig.subrange(n as int, n as int) =~= Seq::<(Seq<char>, Seq<Showtime>)>::empty());
    while rest.len() > 0
        invariant
            sorted_by_title(entries_view(out@)),
            out@.len() + rest@.len() == n,
            orig.len() == n,
            entries_view(rest@) == orig.subrange(0, rest@.len() as int),
            entries_view(out@) == title_order(orig.subrange(rest@.len() as int, n as int)),
            forall|x: (Seq<char>, Seq<Showtime>)|
                #[trigger] orig.contains(x) <==> (entries_view(out@).contains(x) || entries_view(
                    rest@,
                ).contains(x)),
        decreases rest@.len(),
    {
        let ghost rest0 = rest@;
        let e = rest.pop().unwrap();
        assert(rest0 == rest@.push(e));
        let key = title_key(&e);
        let ghost old_out = entries_view(out@);
        let mut p: usize = 0;
        assert(old_out.subrange(0, old_out.len() as int) =~= old_out);
        while p < out.len() && text_le_exec(title_key(&out[p]).as_str(), key.as_str())
            invariant
                p <= out@.len(),
                old_out == entries_view(out@),
                forall|k: int| 0 <= k < p ==> text_le(lower_of(#[trigger] old_out[k].0), key@),
                insertion_point(old_out, key@) == p + insertion_point(
                    old_out.subrange(p as int, old_out.len() as int),
                    key@,
                ),
            decreases out@.len() - p,
        {
            assert(old_out.subrange(p as int, old_out.len() as int).drop_first() =~= old_out.subrange(
                p + 1,
                old_out.len() as int,
            ));
            p = p + 1;
        }
        assert(insertion_point(old_out, key@) == p);
        let ghost ve = entry_view(e);
        out.insert(p, e);
        proof {
            let nw = entries_view(out@);
            assert(nw =~= old_out.insert(p as int, ve));
            assert(entries_view(rest0) =~= entries_view(rest@).push(ve));
            let m = rest@.len() as int;
            assert(entries_view(rest@) =~= orig.subrange(0, m));
            assert(orig.subrange(m, n as int).drop_first() =~= orig.subrange(m + 1, n as int));
            assert(entries_view(rest0)[m] == ve);
            assert(orig.subrange(0, m + 1)[m] == orig[m]);
            assert(orig[m] == ve);
            assert(nw == title_order(orig.subrange(m, n as int)));
            if p < old_out.len() {
                lemma_text_le_total(lower_of(old_out[p as int].0), key@);
            }
            assert forall|i: int, j: int| 0 <= i < j < nw.len() implies text_le(
                lower_of(#[trigger] nw[i].0),
                lower_of(#[trigger] nw[j].0),
            ) by {
                if j < p {
                    assert(nw[i] == old_out[i] && nw[j] == old_out[j]);
                } else if j == p {
                    assert(nw[i] == old_out[i]);
                } else if i > p {
                    assert(nw[i] == old_out[i - 1] && nw[j] == old_out[j - 1]);
                } else if i == p {
                    assert(nw[j] == old_out[j - 1]);
                    if j - 1 > p {
                        lemma_text_le_transitive(
                            key@,
                            lower_of(old_out[p as int].0),
                            lower_of(old_out[j - 1].0),
                        );
                    }
                } else {
                    assert(nw[i] == old_out[i] && nw[j] == old_out[j - 1]);
                }
            }
            assert forall|x: (Seq<char>, Seq<Showtime>)| #[trigger] orig.contains(x) <==> (
            nw.contains(x) || entries_view(rest@).contains(x)) by {
                if old_out.contains(x) {
                    let k = choose|k: int| 0 <= k < old_out.len() && old_out[k] == x;
                    if k < p {
                        assert(nw[k] == x);
                    } else {
                        assert(nw[k + 1] == x);
                    }
                }
                if nw.contains(x) {
                    let k = choose|k: int| 0 <= k < nw.len() && nw[k] == x;
                    if k < p {
                        assert(old_out[k] == x);
                    } else if k > p {
                        assert(old_out[k - 1] == x);
                    } else {
                        assert(entries_view(rest0)[rest0.len() - 1] == x);
                    }
                }
                if entries_view(rest0).contains(x) {
                    let k = choose|k: int| 0 <= k < rest0.len() && entries_view(rest0)[k] == x;
                    if k == rest0.len() - 1 {
                        assert(nw[p as int] == x);
                    } else {
                        assert(entries_view(rest@)[k] == x);
                    }
                }
                if entries_view(rest@).contains(x) {
                    let k = choose|k: int| 0 <= k < rest@.len() && entries_view(rest@)[k] == x;
                    assert(entries_view(rest0)[k] == x);
                }
            }
        }
    }
    proof {
        assert(entries_view(rest@) =~= Seq::<(Seq<char>, Seq<Showtime>)>::empty());
        assert(orig.subrange(0, n as int) =~= orig);
    }
    out
}


/// The showtimes that fall on day `d`, in their order.
pub open spec fn day_times(ts: Seq<Showtime>, d: int) -> Seq<Showtime>
    decreases ts.len(),
{
    if ts.len() == 0 {
        seq![]
    } else {
        let r = day_times(ts.drop_last(), d);
        if ts.last().day == d {
            r.push(ts.last())
        } else {
            r
        }
    }
}

/// For each title with showtimes on day `d`, in schedule order, the title
/// with those showtimes.
pub open spec fn entries_on_day(s: Seq<(Seq<char>, Seq<Showtime>)>, d: int) -> Seq<
    (Seq<char>, Seq<Showtime>),
>
    decreases s.len(),
{
    if s.len() == 0 {
        seq![]
    } else {
        let r = entries_on_day(s.drop_last(), d);
        let f = day_times(s.last().1, d);
        if f.len() > 0 {
            r.push((s.last().0, f))
        } else {
            r
        }
    }
}

/// The showtimes of `ts` that fall on day `d`.
pub fn times_on_day(ts: &Vec<Showtime>, d: i64) -> (r: Vec<Showtime>)
    ensures
        r@ == day_times(ts@, d as int),
{
    let mut out: Vec<Showtime> = Vec::new();
    let n = ts.len();
    let mut i: usize = 0;
    assert(ts@.subrange(0, 0) =~= Seq::<Showtime>::empty());
    while i < n
        invariant
            n == ts@.len(),
            i <= n,
            out@ == day_times(ts@.subrange(0, i as int), d as int),
        decreases n - i,
    {
        let t = ts[i];
        assert(ts@.subrange(0, i + 1).drop_last() =~= ts@.subrange(0, i as int));
        if t.day == d {
            out.push(t);
        }
        i = i + 1;
    }
    assert(ts@.subrange(0, n as int) =~= ts@);
    out
}

/// Every entry kept for a day has at least one showtime.
pub proof fn lemma_entries_on_day_nonempty(s: Seq<(Seq<char>, Seq<Showtime>)>, d: int)
    ensures
        forall|x: (Seq<char>, Seq<Showtime>)| #[trigger]
            entries_on_day(s, d).contains(x) ==> x.1.len() > 0,
    decreases s.len(),
{
    if s.len() > 0 {
        lemma_entries_on_day_nonempty(s.drop_last(), d);
        let r = entries_on_day(s.drop_last(), d);
        let f = day_times(s.last().1, d);
        if f.len() > 0 {
            assert forall|x: (Seq<char>, Seq<Showtime>)| #[trigger]
                r.push((s.last().0, f)).contains(x) implies x.1.len() > 0 by {
                let k = choose|k: int| 0 <= k < r.len() + 1 && r.push((s.last().0, f))[k] == x;
                if k < r.len() {
                    assert(r.contains(x));
                }
            }
        }
    }
}

/// The movies with showtimes on day `day`, each with only those showtimes,
/// ordered by title case-insensitively. No movie comes with an empty list.
pub fn filtered_by_date(schedule: &Schedule, day: i64) -> (r: Vec<MovieEntry>)
    ensures
        entries_view(r@) == title_order(entries_on_day(schedule@, day as int)),
        sorted_by_title(entries_view(r@)),
        same_entries(entries_view(r@), entries_on_day(schedule@, day as int)),
        forall|i: int| 0 <= i < r@.len() ==> (#[trigger] r@[i]).1@.len() > 0,
{
    let ghost s = schedule@;
    let mut kept: Vec<MovieEntry> = Vec::new();
    let n = schedule.movies.len();
    let mut i: usize = 0;
    assert(s.subrange(0, 0) =~= Seq::<(Seq<char>, Seq<Showtime>)>::empty());
    while i < n
        invariant
            n == s.len(),
            s == schedule@,
            i <= n,
            entries_view(kept@) == entries_on_day(s.subrange(0, i as int), day as int),
        decreases n - i,
    {
        let entry = &schedule.movies[i];
        let times = times_on_day(&entry.1, day);
        assert(s.subrange(0, i + 1).drop_last() =~= s.subrange(0, i as int));
        assert(s.subrange(0, i + 1).last() == entry_view(*entry));
        if times.len() > 0 {
            let title = entry.0.clone();
            let ghost before = kept@;
            kept.push((title, times));
            assert(entries_view(kept@) =~= entries_view(before).push((entry.0@, times@)));
        }
        i = i + 1;
    }
    assert(s.subrange(0, n as int) =~= s);
    let r = sort_by_title(kept);
    proof {
        lemma_entries_on_day_nonempty(s, day as int);
        assert forall|i: int| 0 <= i < r@.len() implies (#[trigger] r@[i]).1@.len() > 0 by {
            assert(entries_view(r@)[i] == entry_view(r@[i]));
            assert(entries_view(r@).contains(entry_view(r@[i])));
        }
    }
    r
}

/// All movies of the schedule, ordered by title case-insensitively.
pub fn sorted_movies(schedule: &Schedule) -> (r: Vec<MovieEntry>)
    ensures
        entries_view(r@) == title_order(schedule@),
        sorted_by_title(entries_view(r@)),
        same_entries(entries_view(r@), schedule@),
{
    let mut all: Vec<MovieEntry> = Vec::new();
    let n = schedule.movies.len();
    let mut i: usize = 0;
    while i < n
        invariant
            n == schedule.movies@.len(),
            i <= n,
            entries_view(all@) == schedule@.subrange(0, i as int),
        decreases n - i,
    {
        let entry = &schedule.movies[i];
        let copy = (entry.0.clone(), entry.1.clone());
        assert(copy.1@ =~= entry.1@);
        let ghost before = all@;
        all.push(copy);
        assert(entries_view(all@) =~= entries_view(before).push(entry_view(copy)));
        assert(schedule@[i as int] == entry_view(schedule.movies@[i as int]));
        assert(entries_view(all@) =~= schedule@.subrange(0, i + 1));
        i = i + 1;
    }
    assert(schedule@.subrange(0, n as int) =~= schedule@);
    sort_by_title(all)
}

} // verus!
