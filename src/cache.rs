//! The snapshot's text: a schedule with the time it was captured, written
//! so that reading the text back gives the same snapshot.
//!
//! The text is the header line, the capture time, then one record per movie:
//! `M`, the title's length, the title, the number of showtimes, and each
//! showtime as its day and minute. Numbers are written in decimal with a
//! fixed number of digits; a signed one starts with `+` or `-`.
use vstd::prelude::*;
use crate::schedule::{titles_unique, Schedule, Showtime};
use crate::text::{digit_char, push_char, string_of};

verus! {

/// The first line of a snapshot text.
pub const CACHE_HEADER: &'static str = "cinema-cache 1\n";

/// Ten to the power `w`.
pub open spec fn pow10(w: nat) -> nat
    decreases w,
{
    if w == 0 {
        1
    } else {
        10 * pow10((w - 1) as nat)
    }
}

/// The last `w` decimal digits of `n`, leading zeros included.
pub open spec fn fixed(n: nat, w: nat) -> Seq<char>
    decreases w,
{
    if w == 0 {
        seq![]
    } else {
        fixed(n / 10, (w - 1) as nat).push(digit_char((n % 10) as int))
    }
}

/// A decimal digit.
pub open spec fn is_digit(c: char) -> bool {
    '0' <= c <= '9'
}

/// The value of a decimal digit.
pub open spec fn digit_value(c: char) -> nat {
    (c as u32 - 48) as nat
}

/// The value of a text of decimal digits.
pub open spec fn value_of(s: Seq<char>) -> nat
    decreases s.len(),
{
    if s.len() == 0 {
        0
    } else {
        value_of(s.drop_last()) * 10 + digit_value(s.last())
    }
}

/// A signed number: its sign, then nineteen digits of its magnitude.
pub open spec fn signed_text(x: int) -> Seq<char> {
    if x < 0 {
        seq!['-'] + fixed((-x) as nat, 19)
    } else {
        seq!['+'] + fixed(x as nat, 19)
    }
}

/// A showtime: its day, then ten digits of its minute.
pub open spec fn showtime_text(t: Showtime) -> Seq<char> {
    signed_text(t.day as int) + fixed(t.minute as nat, 10)
}

/// Showtimes one after the other.
pub open spec fn times_text(ts: Seq<Showtime>) -> Seq<char>
    decreases ts.len(),
{
    if ts.len() == 0 {
        seq![]
    } else {
        times_text(ts.drop_last()) + showtime_text(ts.last())
    }
}

/// A movie's record.
pub open spec fn movie_text(m: (Seq<char>, Seq<Showtime>)) -> Seq<char> {
    seq!['M'] + fixed(m.0.len(), 20) + m.0 + fixed(m.1.len(), 20) + times_text(m.1)
}

/// Movie records one after the other.
pub open spec fn movies_text(ms: Seq<(Seq<char>, Seq<Showtime>)>) -> Seq<char>
    decreases ms.len(),
{
    if ms.len() == 0 {
        seq![]
    } else {
        movies_text(ms.drop_last()) + movie_text(ms.last())
    }
}

/// The text of the snapshot of schedule `ms` captured at `updated`.
pub open spec fn snapshot_text(ms: Seq<(Seq<char>, Seq<Showtime>)>, updated: i64) -> Seq<char> {
    CACHE_HEADER@ + signed_text(updated as int) + movies_text(ms)
}

/// Every length in the schedule fits a machine word, as the lengths of a
/// schedule in memory do.
pub open spec fn lengths_fit(ms: Seq<(Seq<char>, Seq<Showtime>)>) -> bool {
    forall|i: int|
        0 <= i < ms.len() ==> (#[trigger] ms[i]).0.len() <= usize::MAX && ms[i].1.len() <= usize::MAX
}

proof fn lemma_digit_char(d: int)
    requires
        0 <= d < 10,
    ensures
        is_digit(digit_char(d)),
        digit_value(digit_char(d)) == d,
{
    reveal_strlit("0123456789");
}

proof fn lemma_pow10_positive(w: nat)
    ensures
        pow10(w) > 0,
    decreases w,
{
    if w > 0 {
        lemma_pow10_positive((w - 1) as nat);
    }
}

/// `fixed` writes `w` digits whose value is `n` modulo ten to the `w`.
proof fn lemma_fixed(n: nat, w: nat)
    ensures
        fixed(n, w).len() == w,
        forall|i: int| 0 <= i < w ==> is_digit(#[trigger] fixed(n, w)[i]),
        value_of(fixed(n, w)) == n % pow10(w),
    decreases w,
{
    if w > 0 {
        let k = (w - 1) as nat;
        lemma_fixed(n / 10, k);
        lemma_digit_char((n % 10) as int);
        let s = fixed(n, w);
        assert(s.drop_last() =~= fixed(n / 10, k));
        lemma_pow10_positive(k);
        vstd::arithmetic::div_mod::lemma_mod_breakdown(n as int, 10, pow10(k) as int);
        assert(value_of(s) == value_of(fixed(n / 10, k)) * 10 + n % 10);
        assert(value_of(s) == ((n / 10) % pow10(k)) * 10 + n % 10);
        assert(10 * ((n as int / 10) % pow10(k) as int) + (n as int) % 10 == (n as int) % (10 * pow10(k) as int));
    } else {
        assert(n % 1 == 0);
    }
}

proof fn lemma_pow10_values()
    ensures
        pow10(10) == 10000000000,
        pow10(19) == 10000000000000000000,
        pow10(20) == 100000000000000000000,
{
    reveal_with_fuel(pow10, 21);
}


/// Appends the last `w` decimal digits of `n`.
fn write_fixed(out: &mut String, n: u128, w: usize)
    ensures
        final(out)@ == old(out)@ + fixed(n as nat, w as nat),
    decreases w,
{
    if w > 0 {
        write_fixed(out, n / 10, w - 1);
        let d = digit_of(n % 10);
        push_char(out, d);
        proof {
            assert(fixed(n as nat, w as nat) =~= fixed((n / 10) as nat, (w - 1) as nat).push(d));
        }
    } else {
        assert(old(out)@ + fixed(n as nat, 0) =~= old(out)@);
    }
}

/// The decimal digit of a value below 10.
fn digit_of(d: u128) -> (c: char)
    requires
        d < 10,
    ensures
        c == digit_char(d as int),
{
    let digits: &'static str = "0123456789";
    proof {
        reveal_strlit("0123456789");
    }
    digits.get_char(d as usize)
}

/// Appends a signed number.
fn write_signed(out: &mut String, x: i64)
    ensures
        final(out)@ == old(out)@ + signed_text(x as int),
{
    if x < 0 {
        push_char(out, '-');
        let m: u128 = (0i128 - x as i128) as u128;
        write_fixed(out, m, 19);
    } else {
        push_char(out, '+');
        write_fixed(out, x as u128, 19);
    }
}

/// The text of the snapshot of `schedule` captured at `updated` (seconds
/// since the Unix epoch). `decode_snapshot` reads it back as the same
/// snapshot where the schedule is well formed.
pub fn encode_snapshot(schedule: &Schedule, updated: i64) -> (r: String)
    ensures
        r@ == snapshot_text(schedule@, updated),
        lengths_fit(schedule@),
{
    let mut out = String::new();
    out.append(CACHE_HEADER);
    write_signed(&mut out, updated);
    let ghost head = out@;
    let ghost ms = schedule@;
    let n = schedule.movies.len();
    let mut k: usize = 0;
    assert(ms.subrange(0, 0) =~= Seq::<(Seq<char>, Seq<Showtime>)>::empty());
    while k < n
        invariant
            ms == schedule@,
            n == ms.len(),
            k <= n,
            head == CACHE_HEADER@ + signed_text(updated as int),
            out@ == head + movies_text(ms.subrange(0, k as int)),
            forall|i: int| 0 <= i < k ==> (#[trigger] ms[i]).0.len() <= usize::MAX && ms[i].1.len() <= usize::MAX,
        decreases n - k,
    {
        let title = &schedule.movies[k].0;
        let times = &schedule.movies[k].1;
        assert(ms[k as int] == (title@, times@));
        let ghost before = out@;
        let title_len = title.as_str().unicode_len();
        let m = times.len();
        push_char(&mut out, 'M');
        write_fixed(&mut out, title_len as u128, 20);
        out.append(title.as_str());
        write_fixed(&mut out, m as u128, 20);
        let ghost mid = out@;
        let mut j: usize = 0;
        assert(times@.subrange(0, 0) =~= Seq::<Showtime>::empty());
        while j < m
            invariant
                m == times@.len(),
                j <= m,
                out@ == mid + times_text(times@.subrange(0, j as int)),
            decreases m - j,
        {
            let t = times[j];
            write_signed(&mut out, t.day);
            write_fixed(&mut out, t.minute as u128, 10);
            assert(times@.subrange(0, j + 1).drop_last() =~= times@.subrange(0, j as int));
            assert(out@ =~= mid + times_text(times@.subrange(0, j + 1)));
            j = j + 1;
        }
        assert(times@.subrange(0, m as int) =~= times@);
        assert(ms.subrange(0, k + 1).drop_last() =~= ms.subrange(0, k as int));
        assert(out@ =~= before + movie_text(ms[k as int]));
        assert(out@ =~= head + movies_text(ms.subrange(0, k + 1)));
        k = k + 1;
    }
    assert(ms.subrange(0, n as int) =~= ms);
    out
}


proof fn lemma_pow10_monotone(a: nat, b: nat)
    requires
        a <= b,
    ensures
        pow10(a) <= pow10(b),
    decreases b,
{
    if a < b {
        lemma_pow10_monotone(a, (b - 1) as nat);
    }
}

/// A digit is the digit of its value.
proof fn lemma_digit_of_value(c: char)
    requires
        is_digit(c),
    ensures
        digit_value(c) < 10,
        digit_char(digit_value(c) as int) == c,
{
    reveal_strlit("0123456789");
    let d = digit_value(c);
    if d == 0 {
        assert(digit_char(0) == '0');
    } else if d == 1 {
        assert(digit_char(1) == '1');
    } else if d == 2 {
        assert(digit_char(2) == '2');
    } else if d == 3 {
        assert(digit_char(3) == '3');
    } else if d == 4 {
        assert(digit_char(4) == '4');
    } else if d == 5 {
        assert(digit_char(5) == '5');
    } else if d == 6 {
        assert(digit_char(6) == '6');
    } else if d == 7 {
        assert(digit_char(7) == '7');
    } else if d == 8 {
        assert(digit_char(8) == '8');
    } else {
        assert(digit_char(9) == '9');
    }
}

/// A text of digits is the fixed-width writing of its value, and that value
/// is below ten to the power of its length.
proof fn lemma_value_fixed(s: Seq<char>)
    requires
        forall|i: int| 0 <= i < s.len() ==> is_digit(#[trigger] s[i]),
    ensures
        fixed(value_of(s), s.len()) == s,
        value_of(s) < pow10(s.len()),
    decreases s.len(),
{
    if s.len() > 0 {
        let p = s.drop_last();
        assert forall|i: int| 0 <= i < p.len() implies is_digit(#[trigger] p[i]) by {
            assert(p[i] == s[i]);
        }
        lemma_value_fixed(p);
        lemma_digit_of_value(s.last());
        let v = value_of(s);
        assert(v / 10 == value_of(p) && v % 10 == digit_value(s.last())) by (nonlinear_arith)
            requires v == value_of(p) * 10 + digit_value(s.last()), digit_value(s.last()) < 10;
        assert(fixed(v, s.len()) =~= s);
        assert(v < pow10(s.len())) by (nonlinear_arith)
            requires v == value_of(p) * 10 + digit_value(s.last()), digit_value(s.last()) < 10,
                value_of(p) < pow10(p.len()), pow10(s.len()) == 10 * pow10(p.len());
    }
}

/// The writing of a value below ten to the `w` is read back as that value.
proof fn lemma_fixed_value(n: nat, w: nat)
    requires
        n < pow10(w),
    ensures
        fixed(n, w).len() == w,
        forall|i: int| 0 <= i < w ==> is_digit(#[trigger] fixed(n, w)[i]),
        value_of(fixed(n, w)) == n,
{
    lemma_fixed(n, w);
    vstd::arithmetic::div_mod::lemma_small_mod(n, pow10(w));
}

/// Reads `w` digits at `pos`: the value they write, where they are digits.
fn read_fixed(cs: &Vec<char>, pos: usize, w: usize) -> (r: Option<u128>)
    requires
        pos + w <= cs@.len(),
        w <= 20,
    ensures
        r matches Some(v) ==> cs@.subrange(pos as int, pos + w) == fixed(v as nat, w as nat) && v
            < pow10(w as nat),
        forall|v: nat|
            v < pow10(w as nat) && cs@.subrange(pos as int, pos + w) == #[trigger] fixed(v, w as nat)
                ==> r == Some(v as u128),
{
    let ghost sub = cs@.subrange(pos as int, pos + w);
    let n = cs.len();
    let mut acc: u128 = 0;
    let mut i: usize = 0;
    proof {
        lemma_pow10_values();
        assert(sub.subrange(0, 0) =~= Seq::<char>::empty());
    }
    while i < w
        invariant
            pos + w <= cs@.len(),
            n == cs@.len(),
            w <= 20,
            i <= w,
            sub == cs@.subrange(pos as int, pos + w),
            forall|k: int| 0 <= k < i ==> is_digit(#[trigger] sub[k]),
            acc as nat == value_of(sub.subrange(0, i as int)),
            acc < pow10(i as nat),
            pow10(20) == 100000000000000000000,
        decreases w - i,
    {
        let c = cs[pos + i];
        assert(c == sub[i as int]);
        if !('0' <= c && c <= '9') {
            proof {
                assert forall|v: nat| v < pow10(w as nat) && sub == #[trigger] fixed(v, w as nat) implies false by {
                    lemma_fixed(v, w as nat);
                }
            }
            return None;
        }
        let d: u128 = ((c as u32) - 48) as u128;
        proof {
            lemma_pow10_monotone(i as nat, 19);
            lemma_pow10_values();
            assert(sub.subrange(0, i + 1).drop_last() =~= sub.subrange(0, i as int));
            assert(acc * 10 + d < pow10((i + 1) as nat)) by (nonlinear_arith)
                requires acc < pow10(i as nat), d < 10, pow10((i + 1) as nat) == 10 * pow10(i as nat);
        }
        acc = acc * 10 + d;
        i = i + 1;
    }
    proof {
        assert(sub.subrange(0, w as int) =~= sub);
        lemma_value_fixed(sub);
        assert forall|v: nat| v < pow10(w as nat) && sub == #[trigger] fixed(v, w as nat) implies v == acc by {
            lemma_fixed_value(v, w as nat);
        }
    }
    Some(acc)
}


/// The magnitude of a number.
pub open spec fn magnitude(x: int) -> nat {
    if x < 0 {
        (-x) as nat
    } else {
        x as nat
    }
}

/// Reads a signed number at `pos`.
fn read_signed(cs: &Vec<char>, pos: usize) -> (r: Option<i64>)
    requires
        pos + 20 <= cs@.len(),
    ensures
        r matches Some(x) ==> cs@.subrange(pos as int, pos + 20) == signed_text(x as int),
        forall|x: i64| cs@.subrange(pos as int, pos + 20) == #[trigger] signed_text(x as int) ==> r == Some(x),
{
    let ghost sub = cs@.subrange(pos as int, pos + 20);
    let ghost digits = cs@.subrange(pos + 1, pos + 20);
    assert(sub =~= seq![cs@[pos as int]] + digits);
    proof {
        lemma_pow10_values();
        assert forall|x: i64| sub == #[trigger] signed_text(x as int) implies sub[0] == (if x < 0 {
            '-'
        } else {
            '+'
        }) && digits == fixed(magnitude(x as int), 19) by {
            assert(digits =~= sub.subrange(1, 20));
            if x < 0 {
                assert(signed_text(x as int).subrange(1, 20) =~= fixed((-x) as nat, 19));
            } else {
                assert(signed_text(x as int).subrange(1, 20) =~= fixed(x as nat, 19));
            }
        }
    }
    let n = cs.len();
    let c = cs[pos];
    let m = match read_fixed(cs, pos + 1, 19) {
        Some(m) => m,
        None => {
            proof {
                assert forall|x: i64| sub == #[trigger] signed_text(x as int) implies false by {
                    let a: nat = magnitude(x as int);
                    assert(a < pow10(19));
                    assert(digits == fixed(a, 19));
                }
            }
            return None;
        },
    };
    if c == '-' {
        if m == 0 || m > 9223372036854775808 {
            proof {
                assert forall|x: i64| sub == #[trigger] signed_text(x as int) implies false by {
                    let a: nat = magnitude(x as int);
                    assert(digits == fixed(a, 19));
                    lemma_fixed_value(a, 19);
                    lemma_fixed_value(m as nat, 19);
                }
            }
            return None;
        }
        let x: i64 = (0i128 - m as i128) as i64;
        proof {
            assert(sub =~= signed_text(x as int));
            assert forall|y: i64| sub == #[trigger] signed_text(y as int) implies y == x by {
                let a: nat = magnitude(y as int);
                assert(digits == fixed(a, 19));
                lemma_fixed_value(a, 19);
                lemma_fixed_value(m as nat, 19);
            }
        }
        Some(x)
    } else if c == '+' {
        if m > 9223372036854775807 {
            proof {
                assert forall|x: i64| sub == #[trigger] signed_text(x as int) implies false by {
                    let a: nat = magnitude(x as int);
                    assert(digits == fixed(a, 19));
                    lemma_fixed_value(a, 19);
                    lemma_fixed_value(m as nat, 19);
                }
            }
            return None;
        }
        let x: i64 = m as i64;
        proof {
            assert(sub =~= signed_text(x as int));
            assert forall|y: i64| sub == #[trigger] signed_text(y as int) implies y == x by {
                let a: nat = magnitude(y as int);
                assert(digits == fixed(a, 19));
                lemma_fixed_value(a, 19);
                lemma_fixed_value(m as nat, 19);
            }
        }
        Some(x)
    } else {
        None
    }
}


proof fn lemma_showtime_text_len(t: Showtime)
    ensures
        showtime_text(t).len() == 30,
{
    lemma_fixed(magnitude(t.day as int), 19);
    lemma_fixed(t.minute as nat, 10);
    if t.day < 0 {
        lemma_fixed((-t.day) as nat, 19);
    } else {
        lemma_fixed(t.day as nat, 19);
    }
}

/// The text of showtimes is thirty characters a showtime, the `j`-th at
/// thirty times `j`.
proof fn lemma_times_text_slice(ts: Seq<Showtime>)
    ensures
        times_text(ts).len() == 30 * ts.len(),
        forall|j: int|
            0 <= j < ts.len() ==> times_text(ts).subrange(30 * j, 30 * j + 30) == showtime_text(
                #[trigger] ts[j],
            ),
        forall|j: int|
            0 <= j <= ts.len() ==> #[trigger] times_text(ts).subrange(0, 30 * j) == times_text(
                ts.subrange(0, j),
            ),
    decreases ts.len(),
{
    if ts.len() > 0 {
        let p = ts.drop_last();
        lemma_times_text_slice(p);
        lemma_showtime_text_len(ts.last());
        let whole = times_text(ts);
        assert(whole == times_text(p) + showtime_text(ts.last()));
        assert forall|j: int| 0 <= j < ts.len() implies whole.subrange(30 * j, 30 * j + 30) == showtime_text(
            #[trigger] ts[j],
        ) by {
            if j < p.len() {
                assert(p[j] == ts[j]);
                assert(whole.subrange(30 * j, 30 * j + 30) =~= times_text(p).subrange(30 * j, 30 * j + 30));
            } else {
                assert(whole.subrange(30 * j, 30 * j + 30) =~= showtime_text(ts.last()));
            }
        }
        assert forall|j: int| 0 <= j <= ts.len() implies #[trigger] whole.subrange(0, 30 * j) == times_text(
            ts.subrange(0, j),
        ) by {
            if j < ts.len() {
                assert(whole.subrange(0, 30 * j) =~= times_text(p).subrange(0, 30 * j));
                assert(p.subrange(0, j) =~= ts.subrange(0, j));
            } else {
                assert(whole.subrange(0, 30 * j) =~= whole);
                assert(ts.subrange(0, j) =~= ts);
            }
        }
    } else {
        assert(times_text(ts).subrange(0, 0) =~= times_text(ts.subrange(0, 0)));
    }
}

/// Reads `count` showtimes at `pos`.
fn read_times(cs: &Vec<char>, pos: usize, count: usize) -> (r: Option<Vec<Showtime>>)
    requires
        pos + 30 * count <= cs@.len(),
    ensures
        r matches Some(v) ==> v@.len() == count && cs@.subrange(pos as int, pos + 30 * count)
            == times_text(v@),
        forall|ts: Seq<Showtime>|
            ts.len() == count && cs@.subrange(pos as int, pos + 30 * count) == #[trigger] times_text(ts)
                ==> (r matches Some(v) && v@ == ts),
{
    let ghost whole = cs@.subrange(pos as int, pos + 30 * count);
    let n = cs.len();
    let mut out: Vec<Showtime> = Vec::new();
    let mut j: usize = 0;
    assert(whole.subrange(0, 0) =~= times_text(out@));
    while j < count
        invariant
            pos + 30 * count <= cs@.len(),
            n == cs@.len(),
            whole == cs@.subrange(pos as int, pos + 30 * count),
            j <= count,
            out@.len() == j,
            whole.subrange(0, 30 * j) == times_text(out@),
            forall|ts: Seq<Showtime>|
                ts.len() == count && whole == #[trigger] times_text(ts) ==> out@ == ts.subrange(0, j as int),
        decreases count - j,
    {
        let p: usize = pos + 30 * j;
        assert(cs@.subrange(p as int, p + 20) =~= whole.subrange(30 * j, 30 * j + 20));
        assert(cs@.subrange(p + 20, p + 30) =~= whole.subrange(30 * j + 20, 30 * j + 30));
        proof {
            lemma_pow10_values();
            assert forall|ts: Seq<Showtime>| ts.len() == count && whole == #[trigger] times_text(ts) implies
                cs@.subrange(p as int, p + 20) == signed_text(ts[j as int].day as int)
                && cs@.subrange(p + 20, p + 30) == fixed(ts[j as int].minute as nat, 10) by {
                lemma_times_text_slice(ts);
                let t = ts[j as int];
                assert(whole.subrange(30 * j, 30 * j + 30) == showtime_text(t));
                lemma_fixed(magnitude(t.day as int), 19);
                if t.day < 0 {
                    lemma_fixed((-t.day) as nat, 19);
                } else {
                    lemma_fixed(t.day as nat, 19);
                }
                assert(whole.subrange(30 * j, 30 * j + 20) =~= showtime_text(t).subrange(0, 20));
                assert(showtime_text(t).subrange(0, 20) =~= signed_text(t.day as int));
                assert(whole.subrange(30 * j + 20, 30 * j + 30) =~= showtime_text(t).subrange(20, 30));
                assert(showtime_text(t).subrange(20, 30) =~= fixed(t.minute as nat, 10));
            }
        }
        let day = match read_signed(cs, p) {
            Some(d) => d,
            None => {
                proof {
                    assert forall|ts: Seq<Showtime>| ts.len() == count && whole == #[trigger] times_text(ts) implies false by {
                        assert(cs@.subrange(p as int, p + 20) == signed_text(ts[j as int].day as int));
                    }
                }
                return None;
            },
        };
        let minute = match read_fixed(cs, p + 20, 10) {
            Some(m) => m,
            None => {
                proof {
                    assert forall|ts: Seq<Showtime>| ts.len() == count && whole == #[trigger] times_text(ts) implies false by {
                        assert(cs@.subrange(p + 20, p + 30) == fixed(ts[j as int].minute as nat, 10));
                        lemma_pow10_values();
                    }
                }
                return None;
            },
        };
        if minute > 4294967295 {
            proof {
                assert forall|ts: Seq<Showtime>| ts.len() == count && whole == #[trigger] times_text(ts) implies false by {
                    assert(cs@.subrange(p + 20, p + 30) == fixed(ts[j as int].minute as nat, 10));
                    lemma_pow10_values();
                    lemma_fixed_value(ts[j as int].minute as nat, 10);
                    lemma_fixed_value(minute as nat, 10);
                }
            }
            return None;
        }
        let t = Showtime { day, minute: minute as u32 };
        let ghost before = out@;
        out.push(t);
        proof {
            assert(whole.subrange(30 * j, 30 * j + 30) =~= cs@.subrange(p as int, p + 20) + cs@.subrange(p + 20, p + 30));
            assert(whole.subrange(0, 30 * (j + 1)) =~= whole.subrange(0, 30 * j) + whole.subrange(30 * j, 30 * j + 30));
            assert(out@.drop_last() =~= before);
            assert forall|ts: Seq<Showtime>| ts.len() == count && whole == #[trigger] times_text(ts) implies out@
                == ts.subrange(0, j + 1) by {
                assert(cs@.subrange(p as int, p + 20) == signed_text(ts[j as int].day as int));
                assert(cs@.subrange(p + 20, p + 30) == fixed(ts[j as int].minute as nat, 10));
                lemma_pow10_values();
                lemma_fixed_value(ts[j as int].minute as nat, 10);
                lemma_fixed_value(minute as nat, 10);
                assert(ts[j as int] == t);
                assert(out@ =~= ts.subrange(0, j + 1));
            }
        }
        j = j + 1;
    }
    proof {
        assert(whole.subrange(0, 30 * count) =~= whole);
        assert forall|ts: Seq<Showtime>| ts.len() == count && whole == #[trigger] times_text(ts) implies out@ == ts by {
            assert(ts.subrange(0, count as int) =~= ts);
        }
    }
    Some(out)
}


/// Where the parts of a movie's record lie in it.
proof fn lemma_movie_text_parts(x: (Seq<char>, Seq<Showtime>))
    ensures
        movie_text(x).len() == 41 + x.0.len() + 30 * x.1.len(),
        movie_text(x)[0] == 'M',
        movie_text(x).subrange(1, 21) == fixed(x.0.len(), 20),
        movie_text(x).subrange(21, 21 + x.0.len() as int) == x.0,
        movie_text(x).subrange(21 + x.0.len() as int, 41 + x.0.len() as int) == fixed(x.1.len(), 20),
        movie_text(x).subrange(41 + x.0.len() as int, 41 + x.0.len() + 30 * x.1.len() as int)
            == times_text(x.1),
{
    lemma_fixed(x.0.len(), 20);
    lemma_fixed(x.1.len(), 20);
    lemma_times_text_slice(x.1);
    let m = movie_text(x);
    let l = x.0.len() as int;
    assert(m.subrange(1, 21) =~= fixed(x.0.len(), 20));
    assert(m.subrange(21, 21 + l) =~= x.0);
    assert(m.subrange(21 + l, 41 + l) =~= fixed(x.1.len(), 20));
    assert(m.subrange(41 + l, 41 + l + 30 * x.1.len()) =~= times_text(x.1));
}

/// Reads one movie's record at `pos`: the movie, and where the next record
/// starts.
fn read_movie(cs: &Vec<char>, pos: usize) -> (r: Option<((String, Vec<Showtime>), usize)>)
    requires
        pos <= cs@.len(),
    ensures
        r matches Some((m, next)) ==> pos < next <= cs@.len() && cs@.subrange(pos as int, next as int)
            == movie_text((m.0@, m.1@)),
        forall|x: (Seq<char>, Seq<Showtime>)|
            x.0.len() <= usize::MAX && x.1.len() <= usize::MAX && pos + movie_text(x).len() <= cs@.len()
                && cs@.subrange(pos as int, pos + movie_text(x).len()) == #[trigger] movie_text(x) ==> (r matches Some(
                (m, next),
            ) && (m.0@, m.1@) == x && next == pos + movie_text(x).len()),
{
    let n = cs.len();
    proof {
        lemma_pow10_values();
        assert forall|x: (Seq<char>, Seq<Showtime>)|
            x.0.len() <= usize::MAX && x.1.len() <= usize::MAX && pos + movie_text(x).len() <= cs@.len()
                && cs@.subrange(pos as int, pos + movie_text(x).len()) == #[trigger] movie_text(x) implies {
                let l = x.0.len() as int;
                &&& cs@[pos as int] == 'M'
                &&& cs@.subrange(pos + 1, pos + 21) == fixed(x.0.len(), 20)
                &&& cs@.subrange(pos + 21, pos + 21 + l) == x.0
                &&& cs@.subrange(pos + 21 + l, pos + 41 + l) == fixed(x.1.len(), 20)
                &&& cs@.subrange(pos + 41 + l, pos + 41 + l + 30 * x.1.len()) == times_text(x.1)
                &&& x.0.len() < pow10(20) && x.1.len() < pow10(20)
            } by {
            lemma_movie_text_parts(x);
            let l = x.0.len() as int;
            let m = movie_text(x);
            let sub = cs@.subrange(pos as int, pos + m.len());
            assert(cs@[pos as int] == sub[0]);
            assert(cs@.subrange(pos + 1, pos + 21) =~= sub.subrange(1, 21));
            assert(cs@.subrange(pos + 21, pos + 21 + l) =~= sub.subrange(21, 21 + l));
            assert(cs@.subrange(pos + 21 + l, pos + 41 + l) =~= sub.subrange(21 + l, 41 + l));
            assert(cs@.subrange(pos + 41 + l, pos + 41 + l + 30 * x.1.len()) =~= sub.subrange(
                41 + l,
                41 + l + 30 * x.1.len(),
            ));
        }
    }
    if n - pos < 41 || cs[pos] != 'M' {
        proof {
            assert forall|x: (Seq<char>, Seq<Showtime>)|
                x.0.len() <= usize::MAX && x.1.len() <= usize::MAX && pos + movie_text(x).len() <= cs@.len()
                    && cs@.subrange(pos as int, pos + movie_text(x).len()) == #[trigger] movie_text(x) implies false by {
                lemma_movie_text_parts(x);
            }
        }
        return None;
    }
    let tl = match read_fixed(cs, pos + 1, 20) {
        Some(v) => v,
        None => return None,
    };
    if tl > (n - pos - 41) as u128 {
        proof {
            assert forall|x: (Seq<char>, Seq<Showtime>)|
                x.0.len() <= usize::MAX && x.1.len() <= usize::MAX && pos + movie_text(x).len() <= cs@.len()
                    && cs@.subrange(pos as int, pos + movie_text(x).len()) == #[trigger] movie_text(x) implies false by {
                lemma_movie_text_parts(x);
            }
        }
        return None;
    }
    let title_end: usize = pos + 21 + tl as usize;
    let title = string_of(cs, pos + 21, title_end);
    let cnt = match read_fixed(cs, title_end, 20) {
        Some(v) => v,
        None => return None,
    };
    let room: usize = n - title_end - 20;
    if cnt > (room / 30) as u128 {
        proof {
            assert forall|x: (Seq<char>, Seq<Showtime>)|
                x.0.len() <= usize::MAX && x.1.len() <= usize::MAX && pos + movie_text(x).len() <= cs@.len()
                    && cs@.subrange(pos as int, pos + movie_text(x).len()) == #[trigger] movie_text(x) implies false by {
                lemma_movie_text_parts(x);
                lemma_fixed_value(x.0.len(), 20);
                lemma_fixed_value(tl as nat, 20);
                lemma_fixed_value(x.1.len(), 20);
                lemma_fixed_value(cnt as nat, 20);
            }
        }
        return None;
    }
    let count = cnt as usize;
    let times = match read_times(cs, title_end + 20, count) {
        Some(t) => t,
        None => {
            proof {
                assert forall|x: (Seq<char>, Seq<Showtime>)|
                    x.0.len() <= usize::MAX && x.1.len() <= usize::MAX && pos + movie_text(x).len() <= cs@.len()
                        && cs@.subrange(pos as int, pos + movie_text(x).len()) == #[trigger] movie_text(x) implies false by {
                    lemma_movie_text_parts(x);
                    lemma_fixed_value(x.0.len(), 20);
                    lemma_fixed_value(tl as nat, 20);
                    lemma_fixed_value(x.1.len(), 20);
                    lemma_fixed_value(cnt as nat, 20);
                    assert(cs@.subrange(title_end + 20, title_end + 20 + 30 * count) == times_text(x.1));
                }
            }
            return None;
        },
    };
    let next: usize = title_end + 20 + 30 * count;
    proof {
        let whole = cs@.subrange(pos as int, next as int);
        lemma_fixed_value(tl as nat, 20);
        assert(whole =~= seq![cs@[pos as int]] + cs@.subrange(pos + 1, pos + 21) + title@ + cs@.subrange(
            title_end as int,
            title_end + 20,
        ) + cs@.subrange(title_end + 20, next as int));
        assert(whole =~= movie_text((title@, times@)));
        assert forall|x: (Seq<char>, Seq<Showtime>)|
            x.0.len() <= usize::MAX && x.1.len() <= usize::MAX && pos + movie_text(x).len() <= cs@.len()
                && cs@.subrange(pos as int, pos + movie_text(x).len()) == #[trigger] movie_text(x) implies (
            title@, times@) == x && next == pos + movie_text(x).len() by {
            lemma_movie_text_parts(x);
            lemma_fixed_value(x.0.len(), 20);
            lemma_fixed_value(x.1.len(), 20);
            lemma_fixed_value(cnt as nat, 20);
        }
    }
    Some(((title, times), next))
}


proof fn lemma_movies_text_concat(a: Seq<(Seq<char>, Seq<Showtime>)>, b: Seq<(Seq<char>, Seq<Showtime>)>)
    ensures
        movies_text(a + b) == movies_text(a) + movies_text(b),
    decreases b.len(),
{
    if b.len() == 0 {
        assert(a + b =~= a);
        assert(movies_text(a) + movies_text(b) =~= movies_text(a));
    } else {
        lemma_movies_text_concat(a, b.drop_last());
        assert((a + b).drop_last() =~= a + b.drop_last());
        assert((a + b).last() == b.last());
        assert(movies_text(a + b) =~= movies_text(a) + movies_text(b));
    }
}

/// The records of the movies from position `k` on start with the record of
/// movie `k`.
proof fn lemma_movies_text_split(ms: Seq<(Seq<char>, Seq<Showtime>)>, k: int)
    requires
        0 <= k < ms.len(),
    ensures
        movies_text(ms) == movies_text(ms.subrange(0, k)) + movie_text(ms[k]) + movies_text(
            ms.subrange(k + 1, ms.len() as int),
        ),
        movies_text(ms.subrange(0, k + 1)) == movies_text(ms.subrange(0, k)) + movie_text(ms[k]),
{
    let a = ms.subrange(0, k);
    let b = ms.subrange(k + 1, ms.len() as int);
    assert(ms =~= (a + seq![ms[k]]) + b);
    lemma_movies_text_concat(a + seq![ms[k]], b);
    lemma_movies_text_concat(a, seq![ms[k]]);
    assert(seq![ms[k]].drop_last() =~= Seq::<(Seq<char>, Seq<Showtime>)>::empty());
    reveal_with_fuel(movies_text, 2);
    assert(movies_text(seq![ms[k]]) =~= movie_text(ms[k]));
    assert(ms.subrange(0, k + 1) =~= a + seq![ms[k]]);
}

/// The snapshot that `text` is the text of, where it is one. Any snapshot
/// whose text it is, with distinct titles, is read back exactly.
pub fn decode_snapshot(text: &str) -> (r: Option<(Schedule, i64)>)
    ensures
        r matches Some((s, t)) ==> s.well_formed() && snapshot_text(s@, t) == text@,
        forall|ms: Seq<(Seq<char>, Seq<Showtime>)>, t: i64|
            titles_unique(ms) && lengths_fit(ms) && #[trigger] snapshot_text(ms, t) == text@ ==> (r matches Some(
                (s, u),
            ) && s@ == ms && u == t),
{
    let cs = crate::text::chars_of(text);
    let hs = crate::text::chars_of(CACHE_HEADER);
    let n = cs.len();
    let hl = hs.len();
    proof {
        assert forall|ms: Seq<(Seq<char>, Seq<Showtime>)>, t: i64| #[trigger] snapshot_text(ms, t) == text@ implies
            hl + 20 <= n && cs@.subrange(0, hl as int) == hs@ && cs@.subrange(hl as int, hl + 20) == signed_text(t as int)
                && cs@.subrange(hl + 20, n as int) == movies_text(ms) by {
            lemma_fixed(magnitude(t as int), 19);
            if t < 0 {
                lemma_fixed((-t) as nat, 19);
            } else {
                lemma_fixed(t as nat, 19);
            }
            assert(signed_text(t as int).len() == 20);
            assert(snapshot_text(ms, t).len() == hl + 20 + movies_text(ms).len());
            assert(cs@.subrange(0, hl as int) =~= snapshot_text(ms, t).subrange(0, hl as int));
            assert(cs@.subrange(hl as int, hl + 20) =~= snapshot_text(ms, t).subrange(hl as int, hl + 20));
            assert(cs@.subrange(hl + 20, n as int) =~= snapshot_text(ms, t).subrange(hl + 20, n as int));
        }
    }
    if n < hl || n - hl < 20 {
        return None;
    }
    let mut i: usize = 0;
    while i < hl
        invariant
            hl <= n,
            n == cs@.len(),
            hl == hs@.len(),
            i <= hl,
            forall|k: int| 0 <= k < i ==> cs@[k] == hs@[k],
            forall|ms: Seq<(Seq<char>, Seq<Showtime>)>, t: i64| #[trigger] snapshot_text(ms, t) == text@
                ==> cs@.subrange(0, hl as int) == hs@,
        decreases hl - i,
    {
        if cs[i] != hs[i] {
            proof {
                assert forall|ms: Seq<(Seq<char>, Seq<Showtime>)>, t: i64| #[trigger] snapshot_text(ms, t) == text@ implies false by {
                    assert(cs@.subrange(0, hl as int)[i as int] == cs@[i as int]);
                    assert(hs@[i as int] == cs@.subrange(0, hl as int)[i as int]);
                }
            }
            return None;
        }
        i = i + 1;
    }
    assert(cs@.subrange(0, hl as int) =~= hs@);
    let updated = match read_signed(&cs, hl) {
        Some(u) => u,
        None => return None,
    };
    let mut pos: usize = hl + 20;
    let mut schedule = Schedule::new();
    proof {
        assert(cs@.subrange(0, pos as int) =~= CACHE_HEADER@ + signed_text(updated as int) + movies_text(schedule@));
    }
    while pos < n
        invariant
            n == cs@.len(),
            cs@ == text@,
            hl + 20 <= pos <= n,
            hl == hs@.len(),
            hs@ == CACHE_HEADER@,
            schedule.well_formed(),
            cs@.subrange(0, pos as int) == CACHE_HEADER@ + signed_text(updated as int) + movies_text(schedule@),
            forall|ms: Seq<(Seq<char>, Seq<Showtime>)>, t: i64|
                titles_unique(ms) && lengths_fit(ms) && #[trigger] snapshot_text(ms, t) == text@ ==> t == updated
                    && schedule@.len() <= ms.len() && schedule@ == ms.subrange(0, schedule@.len() as int),
        decreases n - pos,
    {
        let ghost k = schedule@.len() as int;
        proof {
            assert forall|ms: Seq<(Seq<char>, Seq<Showtime>)>, t: i64|
                titles_unique(ms) && lengths_fit(ms) && #[trigger] snapshot_text(ms, t) == text@ implies k < ms.len()
                    && pos + movie_text(ms[k]).len() <= n && cs@.subrange(pos as int, pos + movie_text(ms[k]).len())
                    == movie_text(ms[k]) by {
                let pre = cs@.subrange(0, pos as int);
                assert(cs@ == snapshot_text(ms, t));
                if k == ms.len() {
                    assert(ms.subrange(0, k) =~= ms);
                    assert(pre.len() == cs@.len());
                    assert(false);
                }
                lemma_movies_text_split(ms, k);
                let full = CACHE_HEADER@ + signed_text(t as int) + movies_text(ms);
                assert(full =~= pre + movie_text(ms[k]) + movies_text(ms.subrange(k + 1, ms.len() as int)));
                assert(cs@.subrange(pos as int, pos + movie_text(ms[k]).len()) =~= movie_text(ms[k]));
            }
        }
        let (m, next) = match read_movie(&cs, pos) {
            Some(p) => p,
            None => {
                proof {
                    assert forall|ms: Seq<(Seq<char>, Seq<Showtime>)>, t: i64|
                        titles_unique(ms) && lengths_fit(ms) && #[trigger] snapshot_text(ms, t) == text@ implies false by {
                        assert(ms[k].0.len() <= usize::MAX && ms[k].1.len() <= usize::MAX);
                    }
                }
                return None;
            },
        };
        proof {
            assert forall|ms: Seq<(Seq<char>, Seq<Showtime>)>, t: i64|
                titles_unique(ms) && lengths_fit(ms) && #[trigger] snapshot_text(ms, t) == text@ implies (m.0@, m.1@)
                    == ms[k] by {
                assert(ms[k].0.len() <= usize::MAX && ms[k].1.len() <= usize::MAX);
            }
        }
        let mut j: usize = 0;
        let count = schedule.movies.len();
        while j < count
            invariant
                count == schedule@.len(),
                k == count,
                j <= count,
                forall|a: int| 0 <= a < j ==> schedule@[a].0 != m.0@,
                forall|ms: Seq<(Seq<char>, Seq<Showtime>)>, t: i64|
                    titles_unique(ms) && lengths_fit(ms) && #[trigger] snapshot_text(ms, t) == text@ ==> k < ms.len()
                        && (m.0@, m.1@) == ms[k] && schedule@ == ms.subrange(0, k),
            decreases count - j,
        {
            if crate::text::same_text(schedule.movies[j].0.as_str(), m.0.as_str()) {
                proof {
                    assert forall|ms: Seq<(Seq<char>, Seq<Showtime>)>, t: i64|
                        titles_unique(ms) && lengths_fit(ms) && #[trigger] snapshot_text(ms, t) == text@ implies false by {
                        assert(schedule@[j as int] == ms[j as int]);
                        assert(ms[j as int].0 == ms[k].0);
                    }
                }
                return None;
            }
            j = j + 1;
        }
        let ghost before = schedule@;
        schedule.movies.push(m);
        proof {
            assert(schedule@ =~= before.push((m.0@, m.1@)));
            assert(cs@.subrange(0, next as int) =~= cs@.subrange(0, pos as int) + cs@.subrange(pos as int, next as int));
            assert(before.push((m.0@, m.1@)).drop_last() =~= before);
            assert forall|ms: Seq<(Seq<char>, Seq<Showtime>)>, t: i64|
                titles_unique(ms) && lengths_fit(ms) && #[trigger] snapshot_text(ms, t) == text@ implies schedule@.len()
                    <= ms.len() && schedule@ == ms.subrange(0, schedule@.len() as int) by {
                assert(schedule@ =~= ms.subrange(0, k + 1));
            }
            assert forall|a: int, b: int| 0 <= a < b < schedule@.len() implies #[trigger] schedule@[a].0
                != #[trigger] schedule@[b].0 by {
                if b == k {
                    assert(schedule@[a] == before[a]);
                }
            }
            lemma_movies_text_split(schedule@, k);
            assert(schedule@.subrange(0, k) =~= before);
            assert(schedule@.subrange(0, k + 1) =~= schedule@);
        }
        pos = next;
    }
    proof {
        assert forall|ms: Seq<(Seq<char>, Seq<Showtime>)>, t: i64|
            titles_unique(ms) && lengths_fit(ms) && #[trigger] snapshot_text(ms, t) == text@ implies schedule@ == ms by {
            let k = schedule@.len() as int;
            if k < ms.len() {
                lemma_movies_text_split(ms, k);
                lemma_movie_text_parts(ms[k]);
                assert(cs@.subrange(0, pos as int) =~= cs@);
                assert(false);
            }
            assert(ms.subrange(0, k) =~= ms);
        }
    }
    Some((schedule, updated))
}


proof fn lemma_fixed_injective(a: nat, b: nat, w: nat)
    requires
        a < pow10(w),
        b < pow10(w),
        fixed(a, w) == fixed(b, w),
    ensures
        a == b,
{
    lemma_fixed_value(a, w);
    lemma_fixed_value(b, w);
}

proof fn lemma_signed_injective(x: i64, y: i64)
    requires
        signed_text(x as int) == signed_text(y as int),
    ensures
        x == y,
{
    lemma_pow10_values();
    let sx = signed_text(x as int);
    let sy = signed_text(y as int);
    lemma_fixed(magnitude(x as int), 19);
    lemma_fixed(magnitude(y as int), 19);
    assert(sx.len() == 20 && sy.len() == 20) by {
        if x < 0 {
            lemma_fixed((-x) as nat, 19);
        } else {
            lemma_fixed(x as nat, 19);
        }
        if y < 0 {
            lemma_fixed((-y) as nat, 19);
        } else {
            lemma_fixed(y as nat, 19);
        }
    }
    assert(sx[0] == sy[0]);
    assert(sx.subrange(1, 20) == sy.subrange(1, 20));
    if x < 0 {
        assert(sx.subrange(1, 20) =~= fixed(magnitude(x as int), 19));
    } else {
        assert(sx.subrange(1, 20) =~= fixed(magnitude(x as int), 19));
    }
    if y < 0 {
        assert(sy.subrange(1, 20) =~= fixed(magnitude(y as int), 19));
    } else {
        assert(sy.subrange(1, 20) =~= fixed(magnitude(y as int), 19));
    }
    lemma_fixed_injective(magnitude(x as int), magnitude(y as int), 19);
}

proof fn lemma_showtime_injective(s: Showtime, t: Showtime)
    requires
        showtime_text(s) == showtime_text(t),
    ensures
        s == t,
{
    lemma_showtime_text_len(s);
    lemma_showtime_text_len(t);
    lemma_pow10_values();
    lemma_fixed(magnitude(s.day as int), 19);
    lemma_fixed(magnitude(t.day as int), 19);
    if s.day < 0 {
        lemma_fixed((-s.day) as nat, 19);
    } else {
        lemma_fixed(s.day as nat, 19);
    }
    if t.day < 0 {
        lemma_fixed((-t.day) as nat, 19);
    } else {
        lemma_fixed(t.day as nat, 19);
    }
    assert(showtime_text(s).subrange(0, 20) =~= signed_text(s.day as int));
    assert(showtime_text(t).subrange(0, 20) =~= signed_text(t.day as int));
    assert(showtime_text(s).subrange(20, 30) =~= fixed(s.minute as nat, 10));
    assert(showtime_text(t).subrange(20, 30) =~= fixed(t.minute as nat, 10));
    lemma_signed_injective(s.day, t.day);
    lemma_fixed_injective(s.minute as nat, t.minute as nat, 10);
}

proof fn lemma_times_injective(a: Seq<Showtime>, b: Seq<Showtime>)
    requires
        a.len() == b.len(),
        times_text(a) == times_text(b),
    ensures
        a == b,
{
    lemma_times_text_slice(a);
    lemma_times_text_slice(b);
    assert forall|j: int| 0 <= j < a.len() implies a[j] == b[j] by {
        assert(times_text(a).subrange(30 * j, 30 * j + 30) == showtime_text(a[j]));
        assert(times_text(b).subrange(30 * j, 30 * j + 30) == showtime_text(b[j]));
        lemma_showtime_injective(a[j], b[j]);
    }
    assert(a =~= b);
}

/// Two texts that each start with a movie's record agree on that movie and
/// on what follows it.
proof fn lemma_movie_prefix_injective(
    x: (Seq<char>, Seq<Showtime>),
    y: (Seq<char>, Seq<Showtime>),
    rx: Seq<char>,
    ry: Seq<char>,
)
    requires
        x.0.len() <= usize::MAX && x.1.len() <= usize::MAX,
        y.0.len() <= usize::MAX && y.1.len() <= usize::MAX,
        movie_text(x) + rx == movie_text(y) + ry,
    ensures
        x == y,
        rx == ry,
{
    lemma_pow10_values();
    lemma_movie_text_parts(x);
    lemma_movie_text_parts(y);
    let whole = movie_text(x) + rx;
    let lx = x.0.len() as int;
    let ly = y.0.len() as int;
    assert(whole.subrange(1, 21) == movie_text(x).subrange(1, 21));
    assert(whole.subrange(1, 21) == (movie_text(y) + ry).subrange(1, 21));
    assert((movie_text(y) + ry).subrange(1, 21) == movie_text(y).subrange(1, 21));
    lemma_fixed_injective(x.0.len(), y.0.len(), 20);
    assert(whole.subrange(21, 21 + lx) == movie_text(x).subrange(21, 21 + lx));
    assert((movie_text(y) + ry).subrange(21, 21 + ly) == movie_text(y).subrange(21, 21 + ly));
    assert(x.0 == y.0);
    assert(whole.subrange(21 + lx, 41 + lx) == movie_text(x).subrange(21 + lx, 41 + lx));
    assert((movie_text(y) + ry).subrange(21 + ly, 41 + ly) == movie_text(y).subrange(21 + ly, 41 + ly));
    lemma_fixed_injective(x.1.len(), y.1.len(), 20);
    let c = x.1.len() as int;
    assert(whole.subrange(41 + lx, 41 + lx + 30 * c) == movie_text(x).subrange(41 + lx, 41 + lx + 30 * c));
    assert((movie_text(y) + ry).subrange(41 + ly, 41 + ly + 30 * c) == movie_text(y).subrange(
        41 + ly,
        41 + ly + 30 * c,
    ));
    lemma_times_injective(x.1, y.1);
    assert(x == y);
    assert(rx =~= whole.subrange(movie_text(x).len() as int, whole.len() as int));
    assert(ry =~= (movie_text(y) + ry).subrange(movie_text(y).len() as int, whole.len() as int));
}

/// The movie records of a schedule begin with the record of its first movie.
proof fn lemma_movies_text_front(ms: Seq<(Seq<char>, Seq<Showtime>)>)
    requires
        ms.len() > 0,
    ensures
        movies_text(ms) == movie_text(ms[0]) + movies_text(ms.drop_first()),
{
    lemma_movies_text_split(ms, 0);
    assert(ms.subrange(0, 0) =~= Seq::<(Seq<char>, Seq<Showtime>)>::empty());
    assert(ms.subrange(1, ms.len() as int) =~= ms.drop_first());
    assert(movies_text(ms.subrange(0, 0)) =~= Seq::<char>::empty());
    assert(movies_text(ms) =~= movie_text(ms[0]) + movies_text(ms.drop_first()));
}

proof fn lemma_movies_injective(a: Seq<(Seq<char>, Seq<Showtime>)>, b: Seq<(Seq<char>, Seq<Showtime>)>)
    requires
        lengths_fit(a),
        lengths_fit(b),
        movies_text(a) == movies_text(b),
    ensures
        a == b,
    decreases a.len(),
{
    if a.len() == 0 {
        if b.len() > 0 {
            lemma_movies_text_front(b);
            lemma_movie_text_parts(b[0]);
        }
        assert(a =~= b);
    } else {
        lemma_movies_text_front(a);
        if b.len() == 0 {
            lemma_movie_text_parts(a[0]);
            assert(false);
        }
        lemma_movies_text_front(b);
        lemma_movie_prefix_injective(a[0], b[0], movies_text(a.drop_first()), movies_text(b.drop_first()));
        assert(lengths_fit(a.drop_first())) by {
            assert forall|i: int| 0 <= i < a.drop_first().len() implies (#[trigger] a.drop_first()[i]).0.len()
                <= usize::MAX && a.drop_first()[i].1.len() <= usize::MAX by {
                assert(a.drop_first()[i] == a[i + 1]);
            }
        }
        assert(lengths_fit(b.drop_first())) by {
            assert forall|i: int| 0 <= i < b.drop_first().len() implies (#[trigger] b.drop_first()[i]).0.len()
                <= usize::MAX && b.drop_first()[i].1.len() <= usize::MAX by {
                assert(b.drop_first()[i] == b[i + 1]);
            }
        }
        lemma_movies_injective(a.drop_first(), b.drop_first());
        assert(a =~= b) by {
            assert forall|i: int| 0 <= i < a.len() implies a[i] == b[i] by {
                if i > 0 {
                    assert(a[i] == a.drop_first()[i - 1]);
                    assert(b[i] == b.drop_first()[i - 1]);
                }
            }
        }
    }
}

/// A snapshot's text determines the snapshot: two snapshots with the same
/// text have the same schedule and the same capture time. With
/// `encode_snapshot` and `decode_snapshot`, saving a snapshot and reading
/// the text back gives that snapshot.
pub proof fn lemma_snapshot_text_determines(
    a: Seq<(Seq<char>, Seq<Showtime>)>,
    ta: i64,
    b: Seq<(Seq<char>, Seq<Showtime>)>,
    tb: i64,
)
    requires
        lengths_fit(a),
        lengths_fit(b),
        snapshot_text(a, ta) == snapshot_text(b, tb),
    ensures
        a == b,
        ta == tb,
{
    let h = CACHE_HEADER@;
    let hl = h.len() as int;
    let whole = snapshot_text(a, ta);
    lemma_fixed(magnitude(ta as int), 19);
    lemma_fixed(magnitude(tb as int), 19);
    if ta < 0 {
        lemma_fixed((-ta) as nat, 19);
    } else {
        lemma_fixed(ta as nat, 19);
    }
    if tb < 0 {
        lemma_fixed((-tb) as nat, 19);
    } else {
        lemma_fixed(tb as nat, 19);
    }
    assert(whole.subrange(hl, hl + 20) =~= signed_text(ta as int));
    assert(snapshot_text(b, tb).subrange(hl, hl + 20) =~= signed_text(tb as int));
    lemma_signed_injective(ta, tb);
    assert(whole.subrange(hl + 20, whole.len() as int) =~= movies_text(a));
    assert(snapshot_text(b, tb).subrange(hl + 20, whole.len() as int) =~= movies_text(b));
    lemma_movies_injective(a, b);
}

} // verus!
