//! How long a stream has been live: the difference between two timestamps,
//! taken field by field with borrows, and its text.
use vstd::prelude::*;
use crate::numbers::format_i128;
use crate::numbers::parse_i128;
use crate::numbers::signed_decimal;
use crate::numbers::spec_parse_in;
use crate::text::concat;
use crate::text::replace_char;
use crate::text::replace_char_seq;
use crate::text::split_seq;
use crate::text::split_str;
use crate::text::views;
use vstd::string::StrSliceExecFns;

verus! {

/// The number of days of month `x` of `year`: February has 29 days in years
/// divisible by four and 28 otherwise; April, June, September and November
/// have 30; every other value counts as a month of 31 days.
pub open spec fn spec_days_in_month(x: int, year: int) -> int {
    if x == 2 {
        if year % 4 == 0 {
            29
        } else {
            28
        }
    } else if x == 4 || x == 6 || x == 9 || x == 11 {
        30
    } else {
        31
    }
}

/// The number of days of month `x` of `year`.
pub fn get_nr_of_days_in_month(x: i128, year: i128) -> (r: i128)
    ensures
        r == spec_days_in_month(x as int, year as int),
{
    if x == 2 {
        let mut days: i128 = 28;
        if year % 4 == 0 {
            days += 1;
        }
        days
    } else if x == 4 || x == 6 || x == 9 || x == 11 {
        30
    } else {
        31
    }
}

/// February has 29 days exactly in the years divisible by four, and 28 in all
/// others.
pub proof fn lemma_february(year: int)
    ensures
        spec_days_in_month(2, year) == 29 <==> year % 4 == 0,
        spec_days_in_month(2, year) == 28 <==> year % 4 != 0,
{
}

/// Every month of the calendar has 28 to 31 days; the months of 30 days are
/// April, June, September and November, and the months of 31 days are the
/// other seven besides February.
pub proof fn lemma_month_lengths(x: int, year: int)
    requires
        1 <= x <= 12,
    ensures
        28 <= spec_days_in_month(x, year) <= 31,
        spec_days_in_month(x, year) == 30 <==> (x == 4 || x == 6 || x == 9 || x == 11),
        spec_days_in_month(x, year) == 31 <==> (x == 1 || x == 3 || x == 5 || x == 7 || x == 8
            || x == 10 || x == 12),
{
}

/// The days of the first `n` months of a year.
pub open spec fn days_before_month(n: int, year: int) -> int
    decreases n,
{
    if n <= 0 {
        0
    } else {
        days_before_month(n - 1, year) + spec_days_in_month(n, year)
    }
}

/// A year has 366 days where it is divisible by four, else 365.
pub proof fn lemma_year_length(year: int)
    ensures
        days_before_month(12, year) == (if year % 4 == 0 {
            366int
        } else {
            365int
        }),
{
    reveal_with_fuel(days_before_month, 13);
}

/// Whether an integer fits in an `i128`.
pub open spec fn fits(v: int) -> bool {
    i128::MIN <= v <= i128::MAX
}

/// Adds `delta` to entry `i`, where the result fits in an `i128`.
pub open spec fn bump(o: Option<Seq<int>>, i: int, delta: int) -> Option<Seq<int>> {
    match o {
        Some(s) => if fits(s[i] + delta) {
            Some(s.update(i, s[i] + delta))
        } else {
            None
        },
        None => None,
    }
}

/// Where entry `i` is negative, adds `unit` to it and takes one from entry
/// `i - 1`.
pub open spec fn borrow(o: Option<Seq<int>>, i: int, unit: int) -> Option<Seq<int>> {
    match o {
        Some(s) => if s[i] < 0 {
            bump(bump(o, i, unit), i - 1, -1)
        } else {
            o
        },
        None => None,
    }
}

/// The field-by-field differences `now - start` of the date fields followed
/// by those of the clock fields, where every start field has a matching now
/// field and every difference fits in an `i128`.
pub open spec fn raw_differences(
    now_date: Seq<int>,
    now_clock: Seq<int>,
    start_date: Seq<int>,
    start_clock: Seq<int>,
) -> Option<Seq<int>> {
    let d = Seq::new(start_date.len(), |i: int| now_date[i] - start_date[i]);
    let c = Seq::new(start_clock.len(), |i: int| now_clock[i] - start_clock[i]);
    if start_date.len() > now_date.len() || start_clock.len() > now_clock.len() {
        None
    } else if exists|i: int| 0 <= i < d.len() && !fits(#[trigger] d[i]) {
        None
    } else if exists|i: int| 0 <= i < c.len() && !fits(#[trigger] c[i]) {
        None
    } else {
        Some(d + c)
    }
}

/// Borrows from the days into the months: a negative day count gets the
/// length of the current month (month `now_date[1]` of year `now_date[0]`)
/// added, and the months lose one.
pub open spec fn borrow_days(o: Option<Seq<int>>, now_date: Seq<int>) -> Option<Seq<int>> {
    match o {
        Some(s) => if s[2] < 0 {
            if now_date.len() < 2 {
                None
            } else {
                bump(
                    bump(o, 2, spec_days_in_month(now_date[1], now_date[0])),
                    1,
                    -1,
                )
            }
        } else {
            o
        },
        None => None,
    }
}

/// How long a stream has been live, as years, months, days, hours, minutes
/// and seconds (and any further clock fields), from the date and clock fields
/// of now and of the stream's start: the differences, where a negative field
/// borrows from the next larger one (60 seconds, 60 minutes, 24 hours, the
/// current month's days, 12 months). `None` where there are fewer than six
/// fields, a start field has no matching now field, the current month is
/// needed but missing, or a value leaves the range of `i128`.
pub open spec fn spec_elapsed(
    now_date: Seq<int>,
    now_clock: Seq<int>,
    start_date: Seq<int>,
    start_clock: Seq<int>,
) -> Option<Seq<int>> {
    match raw_differences(now_date, now_clock, start_date, start_clock) {
        Some(o) => if o.len() < 6 {
            None
        } else {
            let o1 = borrow(Some(o), 5, 60);
            let o2 = borrow(o1, 4, 60);
            let o3 = borrow(o2, 3, 24);
            let o4 = borrow_days(o3, now_date);
            borrow(o4, 1, 12)
        },
        None => None,
    }
}

/// The values of a sequence of `i128`.
pub open spec fn ints(v: Seq<i128>) -> Seq<int> {
    v.map_values(|x: i128| x as int)
}

/// Adds `delta` to `v[i]`; `false` where the sum would leave `i128`.
fn bump_exec(v: &mut Vec<i128>, i: usize, delta: i128) -> (ok: bool)
    requires
        i < old(v).len(),
    ensures
        ok == (bump(Some(ints(old(v)@)), i as int, delta as int) is Some),
        ok ==> Some(ints(final(v)@)) == bump(Some(ints(old(v)@)), i as int, delta as int),
        final(v)@.len() == old(v)@.len(),
{
    let x = v[i];
    if delta >= 0 && x > i128::MAX - delta {
        return false;
    }
    if delta < 0 && x < i128::MIN - delta {
        return false;
    }
    v.set(i, x + delta);
    proof {
        assert(ints(v@) =~= ints(old(v)@).update(i as int, x + delta));
    }
    true
}

/// `borrow` on a vector; `false` where a value would leave `i128`.
fn borrow_exec(v: &mut Vec<i128>, i: usize, unit: i128) -> (ok: bool)
    requires
        1 <= i < old(v).len(),
    ensures
        ok == (borrow(Some(ints(old(v)@)), i as int, unit as int) is Some),
        ok ==> Some(ints(final(v)@)) == borrow(Some(ints(old(v)@)), i as int, unit as int),
        final(v)@.len() == old(v)@.len(),
{
    if v[i] < 0 {
        if !bump_exec(v, i, unit) {
            return false;
        }
        bump_exec(v, i - 1, -1)
    } else {
        true
    }
}

/// How long a stream has been live, from the date and clock fields of now
/// and of its start; `None` exactly where `spec_elapsed` gives nothing.
pub fn elapsed(
    now_date: &Vec<i128>,
    now_clock: &Vec<i128>,
    start_date: &Vec<i128>,
    start_clock: &Vec<i128>,
) -> (r: Option<Vec<i128>>)
    ensures
        r matches Some(v) ==> spec_elapsed(
            ints(now_date@),
            ints(now_clock@),
            ints(start_date@),
            ints(start_clock@),
        ) == Some(ints(v@)),
        r is None ==> spec_elapsed(
            ints(now_date@),
            ints(now_clock@),
            ints(start_date@),
            ints(start_clock@),
        ) is None,        r matches Some(v) ==> v.len() >= 6,
{
    let ghost nd = ints(now_date@);
    let ghost nc = ints(now_clock@);
    let ghost sd = ints(start_date@);
    let ghost sc = ints(start_clock@);
    let ghost d = Seq::new(sd.len(), |i: int| nd[i] - sd[i]);
    let ghost c = Seq::new(sc.len(), |i: int| nc[i] - sc[i]);
    if start_date.len() > now_date.len() || start_clock.len() > now_clock.len() {
        return None;
    }
    let mut out: Vec<i128> = Vec::new();
    let mut i: usize = 0;
    while i < start_date.len()
        invariant
            start_date.len() <= now_date.len(),
            nd == ints(now_date@),
            sd == ints(start_date@),
            d == Seq::new(sd.len(), |i: int| nd[i] - sd[i]),
            i <= start_date.len(),
            ints(out@) == d.take(i as int),
            forall|k: int| 0 <= k < i ==> fits(#[trigger] d[k]),
        decreases start_date.len() - i,
    {
        let a = now_date[i];
        let b = start_date[i];
        if (b < 0 && a > i128::MAX + b) || (b > 0 && a < i128::MIN + b) {
            assert(!fits(d[i as int]));
            return None;
        }
        let ghost before = out@;
        out.push(a - b);
        i = i + 1;
        proof {
            assert(nd[i - 1] == a as int);
            assert(sd[i - 1] == b as int);
            assert(ints(out@) =~= ints(before).push(d[i - 1]));
            assert(ints(out@) =~= d.take(i as int));
        }
    }
    let mut j: usize = 0;
    while j < start_clock.len()
        invariant
            start_clock.len() <= now_clock.len(),
            nc == ints(now_clock@),
            sc == ints(start_clock@),
            c == Seq::new(sc.len(), |i: int| nc[i] - sc[i]),
            d.len() == sd.len(),
            j <= start_clock.len(),
            ints(out@) == d + c.take(j as int),
            forall|k: int| 0 <= k < d.len() ==> fits(#[trigger] d[k]),
            forall|k: int| 0 <= k < j ==> fits(#[trigger] c[k]),
        decreases start_clock.len() - j,
    {
        let a = now_clock[j];
        let b = start_clock[j];
        if (b < 0 && a > i128::MAX + b) || (b > 0 && a < i128::MIN + b) {
            assert(!fits(c[j as int]));
            assert(!(exists|i: int| 0 <= i < d.len() && !fits(#[trigger] d[i])));
            return None;
        }
        let ghost before = out@;
        out.push(a - b);
        j = j + 1;
        proof {
            assert(nc[j - 1] == a as int);
            assert(sc[j - 1] == b as int);
            assert(ints(out@) =~= ints(before).push(c[j - 1]));
            assert(ints(out@) =~= d + c.take(j as int));
        }
    }
    proof {
        assert(c.take(c.len() as int) =~= c);
        assert(d.take(d.len() as int) =~= d);
        assert(raw_differences(nd, nc, sd, sc) == Some(ints(out@)));
    }
    if out.len() < 6 {
        return None;
    }
    if !borrow_exec(&mut out, 5, 60) {
        return None;
    }
    if !borrow_exec(&mut out, 4, 60) {
        return None;
    }
    if !borrow_exec(&mut out, 3, 24) {
        return None;
    }
    if out[2] < 0 {
        if now_date.len() < 2 {
            return None;
        }
        let days = get_nr_of_days_in_month(now_date[1], now_date[0]);
        if !bump_exec(&mut out, 2, days) {
            return None;
        }
        if !bump_exec(&mut out, 1, -1) {
            return None;
        }
    }
    if !borrow_exec(&mut out, 1, 12) {
        return None;
    }
    Some(out)
}

/// The values of `s`'s pieces between occurrences of `sep`, each read as an
/// `i128`; `None` where one of them is not an `i128`.
pub open spec fn spec_numbers(s: Seq<char>, sep: Seq<char>) -> Option<Seq<int>> {
    let pieces = split_seq(s, sep);
    if forall|i: int| 0 <= i < pieces.len() ==> (#[trigger] spec_parse_in(
        pieces[i],
        true,
        i128::MIN as int,
        i128::MAX as int,
    )) is Some {
        Some(
            Seq::new(
                pieces.len(),
                |i: int| spec_parse_in(pieces[i], true, i128::MIN as int, i128::MAX as int)->0,
            ),
        )
    } else {
        None
    }
}

/// The pieces of `s` between occurrences of `sep`, each read as an `i128`.
pub fn numbers_of(s: &str, sep: &str) -> (r: Option<Vec<i128>>)
    requires
        sep@.len() > 0,
    ensures
        r matches Some(v) ==> spec_numbers(s@, sep@) == Some(ints(v@)),
        r is None ==> spec_numbers(s@, sep@) is None,
{
    let pieces = split_str(s, sep);
    let ghost ps = split_seq(s@, sep@);
    let mut out: Vec<i128> = Vec::new();
    let mut i: usize = 0;
    while i < pieces.len()
        invariant
            views(pieces@) == ps,
            ps == split_seq(s@, sep@),
            i <= pieces.len(),
            out.len() == i,
            forall|k: int| 0 <= k < i ==> (#[trigger] spec_parse_in(
                ps[k],
                true,
                i128::MIN as int,
                i128::MAX as int,
            )) == Some(out@[k] as int),
        decreases pieces.len() - i,
    {
        assert(ps[i as int] == pieces@[i as int]@);
        match parse_i128(pieces[i].as_str()) {
            Some(v) => {
                out.push(v);
            },
            None => {
                return None;
            },
        }
        i = i + 1;
    }
    proof {
        let t = Seq::new(
            ps.len(),
            |i: int| spec_parse_in(ps[i], true, i128::MIN as int, i128::MAX as int)->0,
        );
        assert(t =~= ints(out@));
    }
    Some(out)
}

/// The date and clock of a stream's start time as the Twitch API writes it
/// (`2021-03-04T05:06:07Z`): `T` becomes a space, `Z` goes, and the text is
/// cut at the spaces.
pub open spec fn start_pieces(started_at: Seq<char>) -> Seq<Seq<char>> {
    split_seq(replace_char_seq(replace_char_seq(started_at, 'T', seq![' ']), 'Z', Seq::empty()), seq![' '])
}

/// The date and clock of the current time as its text gives them
/// (`2021-03-04 05:06:07.123456789 UTC`): the text before the first `.`, cut
/// at the spaces.
pub open spec fn now_pieces(now: Seq<char>) -> Seq<Seq<char>> {
    split_seq(split_seq(now, seq!['.'])[0], seq![' '])
}

/// How long a stream that started at `started_at` has been live at `now`
/// (both as text); `None` where the texts do not give the fields that
/// `spec_elapsed` needs.
pub open spec fn spec_live_time(started_at: Seq<char>, now: Seq<char>) -> Option<Seq<int>> {
    let sp = start_pieces(started_at);
    let np = now_pieces(now);
    if sp.len() < 2 || np.len() < 2 {
        None
    } else {
        match (
            spec_numbers(np[0], seq!['-']),
            spec_numbers(np[1], seq![':']),
            spec_numbers(sp[0], seq!['-']),
            spec_numbers(sp[1], seq![':']),
        ) {
            (Some(nd), Some(nc), Some(sd), Some(sc)) => spec_elapsed(nd, nc, sd, sc),
            _ => None,
        }
    }
}

/// How long a stream that started at `started_at` has been live at `now`.
pub fn live_time(started_at: &str, now: &str) -> (r: Option<Vec<i128>>)
    ensures
        r matches Some(v) ==> spec_live_time(started_at@, now@) == Some(ints(v@)),
        r is None ==> spec_live_time(started_at@, now@) is None,
        r matches Some(v) ==> v.len() >= 6,
{
    let space = " ";
    let dash = "-";
    let colon = ":";
    let dot = ".";
    proof {
        reveal_strlit(" ");
        reveal_strlit("-");
        reveal_strlit(":");
        reveal_strlit(".");
        reveal_strlit("");
    }
    assert(space@ =~= seq![' ']);
    assert(""@ =~= Seq::<char>::empty());
    assert(dash@ =~= seq!['-']);
    assert(colon@ =~= seq![':']);
    let t1 = replace_char(started_at, 'T', space);
    let t2 = replace_char(t1.as_str(), 'Z', "");
    let sp = split_str(t2.as_str(), space);
    let before_dot = split_str(now, dot);
    proof {
        crate::text::lemma_split_nonempty(now@, seq!['.']);
        assert(seq!['.'] == dot@);
        assert(seq![' '] == space@);
    }
    let np = split_str(before_dot[0].as_str(), space);
    proof {
        assert(views(sp@) == start_pieces(started_at@));
        assert(before_dot@[0]@ == views(before_dot@)[0]);
        assert(views(np@) == now_pieces(now@));
    }
    if sp.len() < 2 || np.len() < 2 {
        return None;
    }
    proof {
        assert(views(np@)[0] == np@[0]@);
        assert(views(np@)[1] == np@[1]@);
        assert(views(sp@)[0] == sp@[0]@);
        assert(views(sp@)[1] == sp@[1]@);
    }
    let nd = match numbers_of(np[0].as_str(), dash) {
        Some(v) => v,
        None => return None,
    };
    let nc = match numbers_of(np[1].as_str(), colon) {
        Some(v) => v,
        None => return None,
    };
    let sd = match numbers_of(sp[0].as_str(), dash) {
        Some(v) => v,
        None => return None,
    };
    let sc = match numbers_of(sp[1].as_str(), colon) {
        Some(v) => v,
        None => return None,
    };
    elapsed(&nd, &nc, &sd, &sc)
}

/// Whether `r` is what `spec_live_time` gives: the same fields, or `None`.
pub open spec fn live_result(r: Option<Vec<i128>>, s: Option<Seq<int>>) -> bool {
    match r {
        Some(v) => s == Some(ints(v@)),
        None => s is None,
    }
}

/// Whether a text has the shape of the current UTC time as `chrono` writes
/// it (`2021-03-04 05:06:07.123456789 UTC`): before the first `.`, a date of
/// three numbers (a year from 1970 to chrono's last year 262142, a month
/// 1-12, a day 1-31) and a clock of three (hour below 24, minute below 60,
/// second up to 60 for a leap second).
pub open spec fn is_now_text(t: Seq<char>) -> bool {
    let np = now_pieces(t);
    &&& np.len() >= 2
    &&& match spec_numbers(np[0], seq!['-']) {
        Some(d) => d.len() == 3 && 1970 <= d[0] <= 262142 && 1 <= d[1] <= 12 && 1 <= d[2] <= 31,
        None => false,
    }
    &&& match spec_numbers(np[1], seq![':']) {
        Some(c) => c.len() == 3 && 0 <= c[0] < 24 && 0 <= c[1] < 60 && 0 <= c[2] <= 60,
        None => false,
    }
}

/// The bound on the fields of a start time within which the live time can be
/// computed without leaving `i128`.
pub open spec fn field_bound() -> int {
    1000000000000000000000000000000
}

/// Whether every field lies within `field_bound`.
pub open spec fn bounded(v: Seq<int>) -> bool {
    forall|i: int| 0 <= i < v.len() ==> -field_bound() <= #[trigger] v[i] <= field_bound()
}

/// Whether a stream's start time gives a date of three numbers and a clock
/// of three, each within `field_bound` (as every Twitch start time
/// `2021-03-04T05:06:07Z` does).
pub open spec fn is_start_text(s: Seq<char>) -> bool {
    let sp = start_pieces(s);
    &&& sp.len() >= 2
    &&& match spec_numbers(sp[0], seq!['-']) {
        Some(d) => d.len() == 3 && bounded(d),
        None => false,
    }
    &&& match spec_numbers(sp[1], seq![':']) {
        Some(c) => c.len() == 3 && bounded(c),
        None => false,
    }
}

/// Where all fields are within `field_bound` and there are three of each
/// kind, the live time is defined and has six fields.
pub proof fn lemma_elapsed_defined(nd: Seq<int>, nc: Seq<int>, sd: Seq<int>, sc: Seq<int>)
    requires
        nd.len() == 3,
        nc.len() == 3,
        sd.len() == 3,
        sc.len() == 3,
        bounded(nd),
        bounded(nc),
        bounded(sd),
        bounded(sc),
    ensures
        spec_elapsed(nd, nc, sd, sc) matches Some(o) && o.len() == 6,
{
    let d = Seq::new(sd.len(), |i: int| nd[i] - sd[i]);
    let c = Seq::new(sc.len(), |i: int| nc[i] - sc[i]);
    assert(-field_bound() <= nd[0] <= field_bound());
    assert(-field_bound() <= nd[1] <= field_bound());
    assert(-field_bound() <= nd[2] <= field_bound());
    assert(-field_bound() <= sd[0] <= field_bound());
    assert(-field_bound() <= sd[1] <= field_bound());
    assert(-field_bound() <= sd[2] <= field_bound());
    assert(-field_bound() <= nc[0] <= field_bound());
    assert(-field_bound() <= nc[1] <= field_bound());
    assert(-field_bound() <= nc[2] <= field_bound());
    assert(-field_bound() <= sc[0] <= field_bound());
    assert(-field_bound() <= sc[1] <= field_bound());
    assert(-field_bound() <= sc[2] <= field_bound());
    assert(forall|i: int| 0 <= i < d.len() ==> fits(#[trigger] d[i]));
    assert(forall|i: int| 0 <= i < c.len() ==> fits(#[trigger] c[i]));
}

/// The live time between two calendar dates and times of day, where the
/// current day lies in the current month: the clock part is the time of day
/// passed since the start's, below a day (a day is carried where the current
/// time of day is earlier); the day count is the day difference less that
/// carry, made up with the length of the current month where it is negative
/// (never negative where the start day is at most that length, always below
/// it); and the years and months (months from 0 to 11) are the month
/// difference, less one where the days were made up.
pub proof fn lemma_elapsed_on_calendar(nd: Seq<int>, nc: Seq<int>, sd: Seq<int>, sc: Seq<int>)
    requires
        is_date(nd),
        is_date(sd),
        nd[2] <= spec_days_in_month(nd[1], nd[0]),
        is_clock(nc),
        is_clock(sc),
    ensures
        spec_elapsed(nd, nc, sd, sc) matches Some(o) && {
            let carry: int = if day_seconds(nc) < day_seconds(sc) {
                1
            } else {
                0
            };
            let d = nd[2] - sd[2] - carry;
            let dim = spec_days_in_month(nd[1], nd[0]);
            let b: int = if d < 0 {
                1
            } else {
                0
            };
            &&& o.len() == 6
            &&& 0 <= o[3] < 24
            &&& 0 <= o[4] < 60
            &&& 0 <= o[5] < 60
            &&& o[3] * 3600 + o[4] * 60 + o[5] == day_seconds(nc) - day_seconds(sc) + 86400
                * carry
            &&& o[2] == (if d < 0 {
                d + dim
            } else {
                d
            })
            &&& o[2] < dim
            &&& (sd[2] <= dim ==> 0 <= o[2])
            &&& 0 <= o[1] < 12
            &&& o[0] * 12 + o[1] == (nd[0] - sd[0]) * 12 + nd[1] - sd[1] - b
        },
{
    lemma_elapsed_defined(nd, nc, sd, sc);
    let o = raw_differences(nd, nc, sd, sc)->0;
    assert(o.len() == 6);
    assert(o[0] == nd[0] - sd[0]);
    assert(o[1] == nd[1] - sd[1]);
    assert(o[2] == nd[2] - sd[2]);
    assert(o[3] == nc[0] - sc[0]);
    assert(o[4] == nc[1] - sc[1]);
    assert(o[5] == nc[2] - sc[2]);
    let o1 = borrow(Some(o), 5, 60)->0;
    let o2 = borrow(Some(o1), 4, 60)->0;
    let o3 = borrow(Some(o2), 3, 24)->0;
    let o4 = borrow_days(Some(o3), nd)->0;
    let o5 = borrow(Some(o4), 1, 12)->0;
    assert(borrow(Some(o), 5, 60) == Some(o1));
    assert(borrow(Some(o1), 4, 60) == Some(o2));
    assert(borrow(Some(o2), 3, 24) == Some(o3));
    assert(borrow_days(Some(o3), nd) == Some(o4));
    assert(borrow(Some(o4), 1, 12) == Some(o5));
    assert(spec_elapsed(nd, nc, sd, sc) == Some(o5));
}

/// For a start time of three date and three clock numbers, the live time at
/// any current-time text is defined and has six fields.
pub proof fn lemma_live_time_defined(started_at: Seq<char>, now: Seq<char>)
    requires
        is_start_text(started_at),
        is_now_text(now),
    ensures
        spec_live_time(started_at, now) matches Some(o) && o.len() == 6,
{
    let sp = start_pieces(started_at);
    let np = now_pieces(now);
    let nd = spec_numbers(np[0], seq!['-'])->0;
    let nc = spec_numbers(np[1], seq![':'])->0;
    let sd = spec_numbers(sp[0], seq!['-'])->0;
    let sc = spec_numbers(sp[1], seq![':'])->0;
    assert(bounded(nd));
    assert(bounded(nc));
    lemma_elapsed_defined(nd, nc, sd, sc);
}

/// The current time in UTC as `chrono` writes it: the seconds and
/// nanoseconds since 1970 from the system clock, made a date and time by
/// `chrono::DateTime::from_timestamp`, then its `Display` (the date, a space,
/// the clock with any fraction of a second after a `.`, and ` UTC`). `None`
/// where the clock reads before 1970 or beyond chrono's last year (262142),
/// where there is no such time. The claim of a `Some` is only the shape
/// (`is_now_text`): the date and clock numbers and their ranges. Which time it
/// is, nothing here can say.
#[verifier::external_body]
fn utc_now_text() -> (r: Option<String>)
    ensures
        r matches Some(t) ==> is_now_text(t@),
{
    let since = std::time::SystemTime::now().duration_since(std::time::UNIX_EPOCH).ok()?;
    let secs = i64::try_from(since.as_secs()).ok()?;
    let t = chrono::DateTime::from_timestamp(secs, since.subsec_nanos())?;
    Some(t.to_string())
}

/// How long a stream has been live, as the clock allows it to be known.
pub enum LiveNow {
    /// The clock gave no current time (before 1970, or beyond chrono's range).
    NoClock,
    /// The start time gave no live time against the current time.
    Unreadable,
    /// The live time's fields: years, months, days, hours, minutes, seconds.
    Live(Vec<i128>),
}

/// How long a stream that started at `started_at` has been live now: the
/// live time at a text of the current time's shape (which time it is rests on
/// the clock). Where the clock gives a time, it is defined, with six fields,
/// for every start time of three date and three clock numbers.
pub fn live_time_now(started_at: &str) -> (r: LiveNow)
    ensures
        r matches LiveNow::Unreadable ==> exists|now: Seq<char>|
            is_now_text(now) && #[trigger] spec_live_time(started_at@, now) is None,
        r matches LiveNow::Live(v) ==> exists|now: Seq<char>|
            is_now_text(now) && #[trigger] spec_live_time(started_at@, now) == Some(ints(v@)),
        r matches LiveNow::Live(v) ==> v.len() >= 6,
        is_start_text(started_at@) ==> !(r is Unreadable),
        is_start_text(started_at@) ==> (r matches LiveNow::Live(v) ==> v.len() == 6),
{
    let now = match utc_now_text() {
        Some(t) => t,
        None => return LiveNow::NoClock,
    };
    let r = live_time(started_at, now.as_str());
    proof {
        assert(live_result(r, spec_live_time(started_at@, now@)));
        if is_start_text(started_at@) {
            lemma_live_time_defined(started_at@, now@);
        }
    }
    match r {
        Some(v) => LiveNow::Live(v),
        None => LiveNow::Unreadable,
    }
}

/// A clock field's text: its decimal text, with a `0` in front where that is a
/// single character.
pub open spec fn padded(v: int) -> Seq<char> {
    let s = signed_decimal(v);
    if s.len() == 1 {
        seq!['0'] + s
    } else {
        s
    }
}

/// A clock field from 0 to 99 is written with exactly two digits: its tens
/// and its units.
pub proof fn lemma_padded_two_digits(v: int)
    requires
        0 <= v < 100,
    ensures
        padded(v) == seq![
            crate::numbers::digit_char(v / 10),
            crate::numbers::digit_char(v % 10),
        ],
{
    if v >= 10 {
        assert(crate::numbers::decimal(v as nat) == crate::numbers::decimal((v / 10) as nat)
            + seq![crate::numbers::digit_char(v % 10)]);
        assert(crate::numbers::decimal((v / 10) as nat) == seq![
            crate::numbers::digit_char(v / 10),
        ]);
        assert(padded(v) =~= seq![
            crate::numbers::digit_char(v / 10),
            crate::numbers::digit_char(v % 10),
        ]);
    } else {
        assert(crate::numbers::decimal(v as nat) == seq![crate::numbers::digit_char(v)]);
        assert(padded(v) =~= seq!['0', crate::numbers::digit_char(v)]);
        assert(crate::numbers::digit_char(0) == '0');
    }
}

/// The clock fields from position `i` on, each padded, with `:` between them.
pub open spec fn clock_text(o: Seq<int>, i: int) -> Seq<char>
    decreases o.len() - i,
{
    if i < 0 || i >= o.len() {
        Seq::empty()
    } else {
        padded(o[i]) + (if i != o.len() - 1 {
            seq![':']
        } else {
            Seq::empty()
        }) + clock_text(o, i + 1)
    }
}

/// A count with its unit, where the count is not zero.
pub open spec fn unit_text(v: int, unit: Seq<char>) -> Seq<char> {
    if v != 0 {
        signed_decimal(v) + unit
    } else {
        Seq::empty()
    }
}

/// The text of a live time: the years, months and days where they are not
/// zero, each followed by its unit, then the clock fields.
pub open spec fn spec_live_text(o: Seq<int>) -> Seq<char> {
    unit_text(o[0], " years"@) + unit_text(o[1], " months"@) + unit_text(o[2], " days"@)
        + clock_text(o, 3)
}

/// A count with its unit, where the count is not zero.
fn unit_exec(v: i128, unit: &str) -> (r: String)
    ensures
        r@ == unit_text(v as int, unit@),
{
    if v != 0 {
        let s = format_i128(v);
        concat(s.as_str(), unit)
    } else {
        String::new()
    }
}

/// The text of a live time (the years, months and days where not zero, then
/// the clock fields).
pub fn live_text(o: &Vec<i128>) -> (r: String)
    requires
        o.len() >= 3,
    ensures
        r@ == spec_live_text(ints(o@)),
{
    let ghost os = ints(o@);
    let mut r = unit_exec(o[0], " years");
    let m = unit_exec(o[1], " months");
    r.append(m.as_str());
    let d = unit_exec(o[2], " days");
    r.append(d.as_str());
    let ghost head = r@;
    let n = o.len();
    let mut tail = String::new();
    let mut i: usize = n;
    proof {
        assert(clock_text(os, n as int) =~= Seq::<char>::empty());
    }
    while i > 3
        invariant
            n == o.len(),
            os == ints(o@),
            3 <= i <= n,
            tail@ == clock_text(os, i as int),
        decreases i,
    {
        i = i - 1;
        let s = format_i128(o[i]);
        let mut piece = if s.as_str().unicode_len() == 1 {
            concat("0", s.as_str())
        } else {
            s
        };
        proof {
            reveal_strlit("0");
            assert(piece@ == padded(os[i as int]));
        }
        if i != n - 1 {
            piece.append(":");
            proof {
                reveal_strlit(":");
            }
        }
        piece.append(tail.as_str());
        tail = piece;
        proof {
            assert(tail@ =~= clock_text(os, i as int));
        }
    }
    r.append(tail.as_str());
    r
}

/// The seconds of a time of day.
pub open spec fn day_seconds(c: Seq<int>) -> int {
    c[0] * 3600 + c[1] * 60 + c[2]
}

/// Whether three fields are a time of day.
pub open spec fn is_clock(c: Seq<int>) -> bool {
    &&& c.len() == 3
    &&& 0 <= c[0] < 24
    &&& 0 <= c[1] < 60
    &&& 0 <= c[2] < 60
}

/// Whether three fields are a date (year, month, day).
pub open spec fn is_date(d: Seq<int>) -> bool {
    &&& d.len() == 3
    &&& 0 <= d[0] < 100000
    &&& 1 <= d[1] <= 12
    &&& 1 <= d[2] <= 31
}

/// For dates and times of day, the live time's months, hours, minutes and
/// seconds lie in their ranges.
pub proof fn lemma_elapsed_ranges(nd: Seq<int>, nc: Seq<int>, sd: Seq<int>, sc: Seq<int>)
    requires
        is_date(nd),
        is_date(sd),
        is_clock(nc),
        is_clock(sc),
    ensures
        spec_elapsed(nd, nc, sd, sc) matches Some(o) && {
            &&& o.len() == 6
            &&& 0 <= o[1] < 12
            &&& 0 <= o[3] < 24
            &&& 0 <= o[4] < 60
            &&& 0 <= o[5] < 60
        },
{
    let d = Seq::new(sd.len(), |i: int| nd[i] - sd[i]);
    let c = Seq::new(sc.len(), |i: int| nc[i] - sc[i]);
    assert(forall|i: int| 0 <= i < d.len() ==> fits(#[trigger] d[i]));
    assert(forall|i: int| 0 <= i < c.len() ==> fits(#[trigger] c[i]));
}

/// On the day it started, a stream's live time is the difference of the two
/// times of day, in hours, minutes and seconds.
pub proof fn lemma_elapsed_same_day(nd: Seq<int>, nc: Seq<int>, sd: Seq<int>, sc: Seq<int>)
    requires
        is_date(nd),
        nd == sd,
        is_clock(nc),
        is_clock(sc),
        day_seconds(sc) <= day_seconds(nc),
    ensures
        spec_elapsed(nd, nc, sd, sc) matches Some(o) && {
            &&& o[0] == 0 && o[1] == 0 && o[2] == 0
            &&& day_seconds(o.subrange(3, 6)) == day_seconds(nc) - day_seconds(sc)
        },
{
    let d = Seq::new(sd.len(), |i: int| nd[i] - sd[i]);
    let c = Seq::new(sc.len(), |i: int| nc[i] - sc[i]);
    assert(forall|i: int| 0 <= i < d.len() ==> fits(#[trigger] d[i]));
    assert(forall|i: int| 0 <= i < c.len() ==> fits(#[trigger] c[i]));
}

} // verus!
