//! Reading listing pages: the movies and clock strings of one day's page, and
//! the day labels that the root page links to.
use vstd::prelude::*;
use crate::text::{has_prefix, is_trimmed, lemma_trim_idempotent, same_text, strip_prefix, trim, trim_of};

verus! {

/// For each element of the document `html` that `outer` selects, in document
/// order, the texts of the elements below it that `inner` selects, in
/// document order; `None` where a selector does not parse.
pub uninterp spec fn selected_texts(
    html: Seq<char>,
    outer: Seq<char>,
    inner: Seq<char>,
) -> Option<Seq<Seq<Seq<char>>>>;

/// Relies on scraper's `Html::parse_document`, `Selector::parse`,
/// `Html::select`, `ElementRef::select` and `ElementRef::text`: the texts
/// depend on the three arguments alone.
#[verifier::external_body]
fn select_texts(html: &str, outer: &str, inner: &str) -> (r: Option<Vec<Vec<String>>>)
    ensures
        r.deep_view() == selected_texts(html@, outer@, inner@),
{
    let doc = scraper::Html::parse_document(html);
    let (Ok(o), Ok(i)) = (scraper::Selector::parse(outer), scraper::Selector::parse(inner)) else {
        return None;
    };
    let mut rows = Vec::new();
    for el in doc.select(&o) {
        let mut texts = Vec::new();
        for t in el.select(&i) {
            texts.push(t.text().collect::<String>());
        }
        rows.push(texts);
    }
    Some(rows)
}

/// For each element of the document `html` that `selector` selects, in
/// document order, the value of its attribute `attr` where it has one; `None`
/// where the selector does not parse.
pub uninterp spec fn selected_attrs(
    html: Seq<char>,
    selector: Seq<char>,
    attr: Seq<char>,
) -> Option<Seq<Option<Seq<char>>>>;

/// Relies on scraper's `Html::parse_document`, `Selector::parse`,
/// `Html::select` and `Element::attr`: the values depend on the three
/// arguments alone.
#[verifier::external_body]
fn select_attrs(html: &str, selector: &str, attr: &str) -> (r: Option<Vec<Option<String>>>)
    ensures
        r.deep_view() == selected_attrs(html@, selector@, attr@),
{
    let doc = scraper::Html::parse_document(html);
    let Ok(s) = scraper::Selector::parse(selector) else {
        return None;
    };
    let mut values = Vec::new();
    for el in doc.select(&s) {
        values.push(el.value().attr(attr).map(String::from));
    }
    Some(values)
}

/// A listing row of a day's page.
pub const ROW_SELECTOR: &'static str = "li.Stack";

/// The title link of a listing row.
pub const TITLE_SELECTOR: &'static str = "span.Title a";

/// A clock string of a listing row.
pub const TIME_SELECTOR: &'static str = "span.Time";

/// The texts that stay non-empty once trimmed, trimmed, in their order.
pub open spec fn kept_texts(ts: Seq<Seq<char>>) -> Seq<Seq<char>>
    decreases ts.len(),
{
    if ts.len() == 0 {
        seq![]
    } else {
        let r = kept_texts(ts.drop_last());
        if trim_of(ts.last()).len() > 0 {
            r.push(trim_of(ts.last()))
        } else {
            r
        }
    }
}

/// The title of a row: the trimmed text of its first title link, where that
/// is not empty.
pub open spec fn row_title(links: Seq<Seq<char>>) -> Option<Seq<char>> {
    if links.len() > 0 && trim_of(links[0]).len() > 0 {
        Some(trim_of(links[0]))
    } else {
        None
    }
}

/// The (title, clock strings) pairs of the first `k` rows, from the texts of
/// each row's title links and of its clock strings; rows without a title are
/// left out.
pub open spec fn rows_upto(
    titles: Seq<Seq<Seq<char>>>,
    times: Seq<Seq<Seq<char>>>,
    k: int,
) -> Seq<(Seq<char>, Seq<Seq<char>>)>
    decreases k,
{
    if k <= 0 {
        seq![]
    } else {
        let r = rows_upto(titles, times, k - 1);
        match row_title(titles[k - 1]) {
            Some(t) => r.push((t, kept_texts(times[k - 1]))),
            None => r,
        }
    }
}

/// The (title, clock strings) pairs that a day's page lists, in page order.
pub open spec fn listing_of(html: Seq<char>) -> Seq<(Seq<char>, Seq<Seq<char>>)> {
    match (
        selected_texts(html, ROW_SELECTOR@, TITLE_SELECTOR@),
        selected_texts(html, ROW_SELECTOR@, TIME_SELECTOR@),
    ) {
        (Some(a), Some(b)) => rows_upto(a, b, if a.len() < b.len() { a.len() as int } else { b.len() as int }),
        _ => seq![],
    }
}

/// Each title, and each clock string, is non-empty and equals its own trim.
pub open spec fn clean_rows(rows: Seq<(Seq<char>, Seq<Seq<char>>)>) -> bool {
    forall|i: int|
        0 <= i < rows.len() ==> is_trimmed(#[trigger] rows[i].0) && forall|k: int|
            0 <= k < rows[i].1.len() ==> is_trimmed(#[trigger] rows[i].1[k])
}

proof fn lemma_kept_texts_trimmed(ts: Seq<Seq<char>>)
    ensures
        forall|k: int| 0 <= k < kept_texts(ts).len() ==> is_trimmed(#[trigger] kept_texts(ts)[k]),
    decreases ts.len(),
{
    if ts.len() > 0 {
        let r = kept_texts(ts.drop_last());
        lemma_kept_texts_trimmed(ts.drop_last());
        lemma_trim_idempotent(ts.last());
        assert forall|k: int| 0 <= k < kept_texts(ts).len() implies is_trimmed(#[trigger] kept_texts(ts)[k]) by {
            if k < r.len() {
                assert(kept_texts(ts)[k] == r[k]);
            }
        }
    }
}

proof fn lemma_rows_upto_clean(titles: Seq<Seq<Seq<char>>>, times: Seq<Seq<Seq<char>>>, k: int)
    ensures
        clean_rows(rows_upto(titles, times, k)),
    decreases k,
{
    if k > 0 {
        let r = rows_upto(titles, times, k - 1);
        lemma_rows_upto_clean(titles, times, k - 1);
        if row_title(titles[k - 1]) is Some {
            lemma_trim_idempotent(titles[k - 1][0]);
            lemma_kept_texts_trimmed(times[k - 1]);
            let whole = rows_upto(titles, times, k);
            assert forall|i: int| 0 <= i < whole.len() implies is_trimmed(#[trigger] whole[i].0) && forall|j: int|
                0 <= j < whole[i].1.len() ==> is_trimmed(#[trigger] whole[i].1[j]) by {
                if i < r.len() {
                    assert(whole[i] == r[i]);
                }
            }
        }
    }
}

/// Every page's listing has trimmed, non-empty titles and clock strings.
pub proof fn lemma_listing_clean(html: Seq<char>)
    ensures
        clean_rows(listing_of(html)),
{
    match (
        selected_texts(html, ROW_SELECTOR@, TITLE_SELECTOR@),
        selected_texts(html, ROW_SELECTOR@, TIME_SELECTOR@),
    ) {
        (Some(a), Some(b)) => {
            lemma_rows_upto_clean(a, b, if a.len() < b.len() { a.len() as int } else { b.len() as int });
        },
        _ => {},
    }
}

/// The texts of `ts` that stay non-empty once trimmed, trimmed.
fn kept_trimmed(ts: &Vec<String>) -> (r: Vec<String>)
    ensures
        r.deep_view() == kept_texts(ts.deep_view()),
{
    let ghost v = ts.deep_view();
    let mut out: Vec<String> = Vec::new();
    let n = ts.len();
    let mut i: usize = 0;
    assert(v.subrange(0, 0) =~= Seq::<Seq<char>>::empty());
    while i < n
        invariant
            n == v.len(),
            v == ts.deep_view(),
            i <= n,
            out.deep_view() == kept_texts(v.subrange(0, i as int)),
        decreases n - i,
    {
        let t = trim(ts[i].as_str());
        assert(v.subrange(0, i + 1).drop_last() =~= v.subrange(0, i as int));
        assert(v[i as int] == ts[i as int]@);
        if t.unicode_len() > 0 {
            let ghost before = out.deep_view();
            out.push(t);
            assert(out.deep_view() =~= before.push(t@));
        }
        i = i + 1;
    }
    assert(v.subrange(0, n as int) =~= v);
    out
}

/// The (title, clock strings) pairs of a day's listing page, in page order.
/// Rows without a title link, or whose title is blank, are left out; clock
/// strings are trimmed and blank ones dropped. A row may keep no clock
/// string at all.
pub fn parse_showtimes_from_html(html: &str) -> (r: Vec<(String, Vec<String>)>)
    ensures
        r.deep_view() == listing_of(html@),
        clean_rows(r.deep_view()),
{
    proof {
        lemma_listing_clean(html@);
    }
    let titles = select_texts(html, ROW_SELECTOR, TITLE_SELECTOR);
    let times = select_texts(html, ROW_SELECTOR, TIME_SELECTOR);
    let mut out: Vec<(String, Vec<String>)> = Vec::new();
    match (titles, times) {
        (Some(a), Some(b)) => {
            let ghost av = a.deep_view();
            let ghost bv = b.deep_view();
            let n = if a.len() < b.len() { a.len() } else { b.len() };
            let mut k: usize = 0;
            while k < n
                invariant
                    av == a.deep_view(),
                    bv == b.deep_view(),
                    n <= a@.len(),
                    n <= b@.len(),
                    k <= n,
                    out.deep_view() == rows_upto(av, bv, k as int),
                decreases n - k,
            {
                let links = &a[k];
                assert(av[k as int] == links.deep_view());
                assert(bv[k as int] == b[k as int].deep_view());
                if links.len() > 0 {
                    let title = trim(links[0].as_str());
                    assert(links.deep_view()[0] == links[0]@);
                    if title.unicode_len() > 0 {
                        let kept = kept_trimmed(&b[k]);
                        let ghost before = out.deep_view();
                        out.push((title, kept));
                        assert(out.deep_view() =~= before.push((title@, kept.deep_view())));
                    }
                }
                k = k + 1;
            }
        },
        _ => {},
    }
    proof {
        if !(titles is Some && times is Some) {
            assert(out.deep_view() =~= Seq::<(Seq<char>, Seq<Seq<char>>)>::empty());
        }
    }
    out
}


/// The links of the root page that lead to one day's listing.
pub const DAY_LINK_SELECTOR: &'static str = ".swiper-slide a[href*='/now-showing/']";

/// The attribute that holds a link's target.
pub const LINK_ATTR: &'static str = "href";

/// The path that day labels follow in a link's target.
pub const LISTING_PATH: &'static str = "/now-showing/";

/// The pseudo-label of the page that lists every day at once.
pub const ALL_DAYS_LABEL: &'static str = "all";

/// The day label that a link target names: what follows the listing path,
/// unless that is empty or the all-days pseudo-label.
pub open spec fn label_of_target(target: Option<Seq<char>>) -> Option<Seq<char>> {
    match target {
        Some(h) => if has_prefix(h, LISTING_PATH@) {
            let rest = h.subrange(LISTING_PATH@.len() as int, h.len() as int);
            if rest.len() > 0 && rest != ALL_DAYS_LABEL@ {
                Some(rest)
            } else {
                None
            }
        } else {
            None
        },
        None => None,
    }
}

/// The day labels that the first `k` link targets name, in their order.
pub open spec fn labels_upto(targets: Seq<Option<Seq<char>>>, k: int) -> Seq<Seq<char>>
    decreases k,
{
    if k <= 0 {
        seq![]
    } else {
        let r = labels_upto(targets, k - 1);
        match label_of_target(targets[k - 1]) {
            Some(l) => r.push(l),
            None => r,
        }
    }
}

/// The day labels that the root page links to, in page order, duplicates
/// kept; `None` where the page cannot be searched for them.
pub open spec fn discovered_labels(html: Seq<char>) -> Option<Seq<Seq<char>>> {
    match selected_attrs(html, DAY_LINK_SELECTOR@, LINK_ATTR@) {
        Some(t) => Some(labels_upto(t, t.len() as int)),
        None => None,
    }
}

/// The day label that one link target names, if any.
pub fn label_from_target(target: &Option<String>) -> (r: Option<String>)
    ensures
        r.deep_view() == label_of_target(target.deep_view()),
{
    match target {
        Some(h) => match strip_prefix(h.as_str(), LISTING_PATH) {
            Some(rest) => {
                if rest.unicode_len() > 0 && !same_text(rest.as_str(), ALL_DAYS_LABEL) {
                    Some(rest)
                } else {
                    None
                }
            },
            None => None,
        },
        None => None,
    }
}

/// The day labels that the root listings page links to, in page order.
pub fn scrape_available_day_endpoints(html: &str) -> (r: Option<Vec<String>>)
    ensures
        r.deep_view() == discovered_labels(html@),
{
    match select_attrs(html, DAY_LINK_SELECTOR, LINK_ATTR) {
        Some(targets) => {
            let ghost tv = targets.deep_view();
            let mut labels: Vec<String> = Vec::new();
            let n = targets.len();
            let mut k: usize = 0;
            while k < n
                invariant
                    tv == targets.deep_view(),
                    n == tv.len(),
                    k <= n,
                    labels.deep_view() == labels_upto(tv, k as int),
                decreases n - k,
            {
                assert(tv[k as int] == targets[k as int].deep_view());
                match label_from_target(&targets[k]) {
                    Some(l) => {
                        let ghost before = labels.deep_view();
                        labels.push(l);
                        assert(labels.deep_view() =~= before.push(l@));
                    },
                    None => {},
                }
                k = k + 1;
            }
            Some(labels)
        },
        None => None,
    }
}

} // verus!
