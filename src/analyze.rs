//! Read-only aggregates over voyages: route statistics and temporal buckets.
use vstd::prelude::*;
use crate::model::{NodeType, Place, RouteAnalysis, Store, TemporalPattern, Voyage};
use crate::search::{links, route_voyages, side_matches_exec};
use crate::text::chars_of;

verus! {

pub open spec fn is_digit(c: char) -> bool {
    '0' <= c && c <= '9'
}

/// The decimal number written by the `len` characters of `s` from `from`.
pub open spec fn number_at(s: Seq<char>, from: int, len: int) -> int
    decreases len,
{
    if len <= 0 {
        0
    } else {
        number_at(s, from, len - 1) * 10 + ((s[from + len - 1] as u32) - ('0' as u32))
    }
}

/// The `len` characters of `s` from `from` are all decimal digits.
pub open spec fn digits_at(s: Seq<char>, from: int, len: int) -> bool {
    forall|j: int| from <= j < from + len ==> is_digit(#[trigger] s[j])
}

/// The year, month and day of an ISO date text `YYYY-MM-DD`, optionally
/// followed by a time part after a space or a `T`.
#[verifier::opaque]
pub open spec fn iso_date(s: Seq<char>) -> Option<(int, int, int)> {
    if s.len() >= 10 && digits_at(s, 0, 4) && s[4] == '-' && digits_at(s, 5, 2) && s[7] == '-'
        && digits_at(s, 8, 2) && (s.len() == 10 || s[10] == ' ' || s[10] == 'T') && 1 <= number_at(
        s,
        5,
        2,
    ) <= 12 && 1 <= number_at(s, 8, 2) <= 31 {
        Some((number_at(s, 0, 4), number_at(s, 5, 2), number_at(s, 8, 2)))
    } else {
        None
    }
}

/// The Julian day number of a date of the proleptic Gregorian calendar.
#[verifier::opaque]
pub open spec fn day_number(y: int, m: int, d: int) -> int {
    let a = (14 - m) / 12;
    let yy = y + 4800 - a;
    let mm = m + 12 * a - 3;
    d + (153 * mm + 2) / 5 + 365 * yy + yy / 4 - yy / 100 + yy / 400 - 32045
}

fn number_at_exec(s: &Vec<char>, from: usize, len: usize) -> (r: i64)
    requires
        from + len <= s@.len(),
        len <= 4,
        digits_at(s@, from as int, len as int),
    ensures
        r == number_at(s@, from as int, len as int),
        0 <= r < 10000,
{
    let n = s.len();
    let mut r: i64 = 0;
    let mut k: usize = 0;
    while k < len
        invariant
            n == s@.len(),
            from + len <= s@.len(),
            len <= 4,
            k <= len,
            digits_at(s@, from as int, len as int),
            r == number_at(s@, from as int, k as int),
            0 <= r,
            r < (if k == 0 {
                1int
            } else if k == 1 {
                10int
            } else if k == 2 {
                100int
            } else if k == 3 {
                1000int
            } else {
                10000int
            }),
        decreases len - k,
    {
        let c = s[from + k];
        assert(is_digit(s@[from + k]));
        r = r * 10 + (c as u32 - '0' as u32) as i64;
        k = k + 1;
    }
    r
}

fn all_digits(s: &Vec<char>, from: usize, len: usize) -> (r: bool)
    requires
        from + len <= s@.len(),
    ensures
        r == digits_at(s@, from as int, len as int),
{
    let n = s.len();
    let mut k: usize = 0;
    while k < len
        invariant
            n == s@.len(),
            from + len <= s@.len(),
            k <= len,
            forall|j: int| from <= j < from + k ==> is_digit(#[trigger] s@[j]),
        decreases len - k,
    {
        let c = s[from + k];
        if !('0' <= c && c <= '9') {
            return false;
        }
        k = k + 1;
    }
    true
}

/// Reads an ISO date text `YYYY-MM-DD` (a time part may follow after a space
/// or a `T`) as its year, month and day.
pub fn parse_date(s: &Vec<char>) -> (r: Option<(i64, i64, i64)>)
    ensures
        match iso_date(s@) {
            Some((y, m, d)) => iso_date_parts(y, m, d) && r == Some((y as i64, m as i64, d as i64)),
            None => r is None,
        },
        r is Some ==> iso_date_parts((r->0).0 as int, (r->0).1 as int, (r->0).2 as int),
{
    proof {
        reveal(iso_date);
        if iso_date(s@) is Some {
            lemma_iso_date_parts(s@);
        }
    }
    if s.len() < 10 {
        return None;
    }
    if !(all_digits(s, 0, 4) && s[4] == '-' && all_digits(s, 5, 2) && s[7] == '-' && all_digits(
        s,
        8,
        2,
    )) {
        return None;
    }
    if !(s.len() == 10 || s[10] == ' ' || s[10] == 'T') {
        return None;
    }
    let y = number_at_exec(s, 0, 4);
    let m = number_at_exec(s, 5, 2);
    let d = number_at_exec(s, 8, 2);
    if 1 <= m && m <= 12 && 1 <= d && d <= 31 {
        Some((y, m, d))
    } else {
        None
    }
}

/// The Julian day number of a date.
pub fn day_number_exec(y: i64, m: i64, d: i64) -> (r: i64)
    requires
        0 <= y < 10000,
        1 <= m <= 12,
        1 <= d <= 31,
    ensures
        r == day_number(y as int, m as int, d as int),
        0 <= r < 6_000_000,
{
    proof {
        reveal(day_number);
    }
    let a = (14 - m) / 12;
    let yy = y + 4800 - a;
    let mm = m + 12 * a - 3;
    d + (153 * mm + 2) / 5 + 365 * yy + yy / 4 - yy / 100 + yy / 400 - 32045
}

/// The days from embarkation to disembarkation, when both dates are known.
pub open spec fn journey_days(v: Voyage) -> Option<int> {
    match (v.embark_date, v.disembark_date) {
        (Some(e), Some(d)) => match (iso_date(e@), iso_date(d@)) {
            (Some((ey, em, ed)), Some((dy, dm, dd))) => Some(
                day_number(dy, dm, dd) - day_number(ey, em, ed),
            ),
            _ => None,
        },
        _ => None,
    }
}

fn date_of(t: &Option<String>) -> (r: Option<(i64, i64, i64)>)
    ensures
        match t {
            Some(s) => match iso_date(s@) {
                Some((y, m, d)) => iso_date_parts(y, m, d) && r == Some((y as i64, m as i64, d as i64)),
                None => r is None,
            },
            None => r is None,
        },
        r is Some ==> iso_date_parts((r->0).0 as int, (r->0).1 as int, (r->0).2 as int),
{
    match t {
        Some(s) => parse_date(&chars_of(s.as_str())),
        None => None,
    }
}

/// The days from embarkation to disembarkation of `v`, when both are known.
pub fn journey_days_exec(v: &Voyage) -> (r: Option<i64>)
    ensures
        match journey_days(*v) {
            Some(n) => r is Some && r->0 == n,
            None => r is None,
        },
        r is Some ==> -6_000_000 < r->0 < 6_000_000,
{
    let e = date_of(&v.embark_date);
    let d = date_of(&v.disembark_date);
    match (e, d) {
        (Some((ey, em, ed)), Some((dy, dm, dd))) => Some(
            day_number_exec(dy, dm, dd) - day_number_exec(ey, em, ed),
        ),
        _ => None,
    }
}

/// The value of a recorded count, or nothing for an unrecorded one.
pub open spec fn recorded(x: Option<i32>) -> int {
    match x {
        Some(n) => n as int,
        None => 0,
    }
}

/// The sum of the recorded embarked counts of `vs`.
pub open spec fn embarked_sum(vs: Seq<Voyage>) -> int
    decreases vs.len(),
{
    if vs.len() == 0 {
        0
    } else {
        embarked_sum(vs.drop_last()) + recorded(vs.last().slaves_embarked)
    }
}

/// The sum of the recorded disembarked counts of `vs`.
pub open spec fn disembarked_sum(vs: Seq<Voyage>) -> int
    decreases vs.len(),
{
    if vs.len() == 0 {
        0
    } else {
        disembarked_sum(vs.drop_last()) + recorded(vs.last().slaves_disembarked)
    }
}

/// How many voyages of `vs` have a known journey length.
pub open spec fn timed_count(vs: Seq<Voyage>) -> nat
    decreases vs.len(),
{
    if vs.len() == 0 {
        0
    } else {
        timed_count(vs.drop_last()) + if journey_days(vs.last()) is Some {
            1nat
        } else {
            0nat
        }
    }
}

/// The sum of the known journey lengths of `vs`, in days.
pub open spec fn journey_sum(vs: Seq<Voyage>) -> int
    decreases vs.len(),
{
    if vs.len() == 0 {
        0
    } else {
        journey_sum(vs.drop_last()) + match journey_days(vs.last()) {
            Some(n) => n,
            None => 0,
        }
    }
}

/// The mortality rate `1 - disembarked / embarked` as a numerator and a
/// denominator; zero when nothing embarked.
pub open spec fn mortality(embarked: int, disembarked: int) -> (int, int) {
    if embarked > 0 {
        (embarked - disembarked, embarked)
    } else {
        (0, 1)
    }
}

proof fn lemma_sum_bounds(vs: Seq<Voyage>)
    ensures
        -(vs.len() * 0x8000_0000) <= embarked_sum(vs) <= vs.len() * 0x8000_0000,
        -(vs.len() * 0x8000_0000) <= disembarked_sum(vs) <= vs.len() * 0x8000_0000,
        -(vs.len() * 6_000_000) <= journey_sum(vs) <= vs.len() * 6_000_000,
        timed_count(vs) <= vs.len(),
    decreases vs.len(),
{
    if vs.len() > 0 {
        lemma_sum_bounds(vs.drop_last());
        let v = vs.last();
        if let (Some(e), Some(d)) = (v.embark_date, v.disembark_date) {
            if let (Some((ey, em, ed)), Some((dy, dm, dd))) = (iso_date(e@), iso_date(d@)) {
                lemma_iso_date_parts(e@);
                lemma_iso_date_parts(d@);
                lemma_day_number_bounds(ey, em, ed);
                lemma_day_number_bounds(dy, dm, dd);
            }
        }
    }
}

/// The ranges of the parts of a date that `iso_date` reads.
pub open spec fn iso_date_parts(y: int, m: int, d: int) -> bool {
    0 <= y < 10000 && 1 <= m <= 12 && 1 <= d <= 31
}

proof fn lemma_number_at_bounds(s: Seq<char>, from: int, len: int)
    requires
        0 <= len <= 4,
        digits_at(s, from, len),
    ensures
        0 <= number_at(s, from, len),
        number_at(s, from, len) < (if len == 0 {
            1int
        } else if len == 1 {
            10int
        } else if len == 2 {
            100int
        } else if len == 3 {
            1000int
        } else {
            10000int
        }),
    decreases len,
{
    if len > 0 {
        lemma_number_at_bounds(s, from, len - 1);
        assert(is_digit(s[from + len - 1]));
    }
}

proof fn lemma_iso_date_parts(s: Seq<char>)
    requires
        iso_date(s) is Some,
    ensures
        iso_date_parts((iso_date(s)->0).0, (iso_date(s)->0).1, (iso_date(s)->0).2),
{
    reveal(iso_date);
    lemma_number_at_bounds(s, 0, 4);
}

proof fn lemma_day_number_bounds(y: int, m: int, d: int)
    requires
        iso_date_parts(y, m, d),
    ensures
        0 <= day_number(y, m, d) < 6_000_000,
{
    reveal(day_number);
    let a = (14 - m) / 12;
    assert(a == if m <= 2 { 1int } else { 0int });
}

impl RouteAnalysis {
    /// The mortality rate `1 - disembarked / embarked` as a numerator and a
    /// denominator; `0 / 1` when nothing embarked.
    pub fn mortality_rate(&self) -> (r: (i128, i128))
        requires
            -0x1_0000_0000_0000_0000_0000_0000 <= self.total_embarked <= 0x1_0000_0000_0000_0000_0000_0000,
            -0x1_0000_0000_0000_0000_0000_0000 <= self.total_disembarked <= 0x1_0000_0000_0000_0000_0000_0000,
        ensures
            r.0 == mortality(self.total_embarked as int, self.total_disembarked as int).0,
            r.1 == mortality(self.total_embarked as int, self.total_disembarked as int).1,
    {
        if self.total_embarked > 0 {
            (self.total_embarked - self.total_disembarked, self.total_embarked)
        } else {
            (0, 1)
        }
    }
}

/// `a` describes the voyages from `origin` to `destination` among `voyages`.
pub open spec fn is_route_analysis(
    voyages: Seq<Voyage>,
    origin: Place,
    destination: Place,
    a: RouteAnalysis,
) -> bool {
    let m = route_voyages(voyages, origin.value, destination.value);
    &&& a.origin_place == origin
    &&& a.destination_place == destination
    &&& a.total_voyages == m.len()
    &&& a.total_embarked == embarked_sum(m)
    &&& a.total_disembarked == disembarked_sum(m)
    &&& a.timed_voyages == timed_count(m)
    &&& a.total_journey_days == journey_sum(m)
}

/// Aggregates the voyages from `origin` to `destination` (each side matched
/// at any level): how many there are, the sums of their recorded embarked and
/// disembarked counts (unrecorded counts are left out), and the number and
/// total length of the journeys whose two dates are known.
pub fn analyze_route(store: &Store, origin: &Place, destination: &Place) -> (r: RouteAnalysis)
    ensures
        is_route_analysis(store.voyages@, *origin, *destination, r),
        -0x1_0000_0000_0000_0000_0000_0000 <= r.total_embarked <= 0x1_0000_0000_0000_0000_0000_0000,
        -0x1_0000_0000_0000_0000_0000_0000 <= r.total_disembarked <= 0x1_0000_0000_0000_0000_0000_0000,
{
    let ghost vs = store.voyages@;
    let ghost m = route_voyages(vs, origin.value, destination.value);
    let mut count: u64 = 0;
    let mut embarked: i128 = 0;
    let mut disembarked: i128 = 0;
    let mut timed: u64 = 0;
    let mut days: i128 = 0;
    let mut i: usize = 0;
    while i < store.voyages.len()
        invariant
            vs == store.voyages@,
            i <= vs.len(),
            count == route_voyages(vs.subrange(0, i as int), origin.value, destination.value).len(),
            embarked == embarked_sum(route_voyages(vs.subrange(0, i as int), origin.value, destination.value)),
            disembarked == disembarked_sum(route_voyages(vs.subrange(0, i as int), origin.value, destination.value)),
            timed == timed_count(route_voyages(vs.subrange(0, i as int), origin.value, destination.value)),
            days == journey_sum(route_voyages(vs.subrange(0, i as int), origin.value, destination.value)),
        decreases vs.len() - i,
    {
        let ghost before = route_voyages(vs.subrange(0, i as int), origin.value, destination.value);
        let v = &store.voyages[i];
        let linked = side_matches_exec(v, NodeType::Origin, origin.value) && side_matches_exec(
            v,
            NodeType::Destination,
            destination.value,
        );
        proof {
            broadcast use vstd::seq_lib::group_filter_ensures;
            reveal(Seq::filter);
            assert(vs.subrange(0, i + 1).drop_last() == vs.subrange(0, i as int));
            assert(vs.subrange(0, i + 1).last() == *v);
            lemma_sum_bounds(before);
            assert(before.len() <= i);
        }
        if linked {
            let ghost after = before.push(*v);
            assert(after.drop_last() == before);
            count = count + 1;
            match v.slaves_embarked {
                Some(n) => {
                    embarked = embarked + n as i128;
                },
                None => {},
            }
            match v.slaves_disembarked {
                Some(n) => {
                    disembarked = disembarked + n as i128;
                },
                None => {},
            }
            match journey_days_exec(v) {
                Some(n) => {
                    timed = timed + 1;
                    days = days + n as i128;
                },
                None => {},
            }
        }
        i = i + 1;
    }
    proof {
        assert(vs.subrange(0, vs.len() as int) == vs);
        lemma_sum_bounds(m);
        broadcast use vstd::seq_lib::group_filter_ensures;
    }
    RouteAnalysis {
        origin_place: origin.duplicate(),
        destination_place: destination.duplicate(),
        total_voyages: count,
        total_embarked: embarked,
        total_disembarked: disembarked,
        timed_voyages: timed,
        total_journey_days: days,
    }
}

/// With no voyage between two places, their analysis counts nothing and its
/// mortality rate is zero.
pub proof fn lemma_unconnected_route(voyages: Seq<Voyage>, origin: Place, destination: Place, a: RouteAnalysis)
    requires
        is_route_analysis(voyages, origin, destination, a),
        forall|i: int| 0 <= i < voyages.len() ==> !links(#[trigger] voyages[i], origin.value, destination.value),
    ensures
        a.total_voyages == 0,
        a.total_embarked == 0,
        a.total_disembarked == 0,
        mortality(a.total_embarked as int, a.total_disembarked as int) == (0int, 1int),
{
    broadcast use vstd::seq_lib::group_filter_ensures;
    let m = route_voyages(voyages, origin.value, destination.value);
    if m.len() > 0 {
        assert(links(m[0], origin.value, destination.value));
        assert(m.contains(m[0]));
        voyages.lemma_filter_contains_rev(|v: Voyage| links(v, origin.value, destination.value), m[0]);
        let i = choose|i: int| 0 <= i < voyages.len() && voyages[i] == m[0];
        assert(!links(voyages[i], origin.value, destination.value));
    }
}

/// The bucket of `v`: the year of its embarkation and, when `by_month`, its
/// month (else 0); nothing when its embarkation date is unknown.
pub open spec fn voyage_period(v: Voyage, by_month: bool) -> Option<(int, int)> {
    match v.embark_date {
        Some(e) => match iso_date(e@) {
            Some((y, m, _d)) => Some((y, if by_month { m } else { 0 })),
            None => None,
        },
        None => None,
    }
}

/// `y` lies in the inclusive range that `start` and `end` bound, when given.
pub open spec fn in_years(y: int, start: Option<i32>, end: Option<i32>) -> bool {
    &&& match start {
        Some(s) => s <= y,
        None => true,
    }
    &&& match end {
        Some(e) => y <= e,
        None => true,
    }
}

/// `v` falls in the bucket `key` of the range.
pub open spec fn counted(v: Voyage, by_month: bool, start: Option<i32>, end: Option<i32>, key: (int, int)) -> bool {
    voyage_period(v, by_month) == Some(key) && in_years(key.0, start, end)
}

/// How many voyages of `vs` fall in the bucket `key`.
pub open spec fn period_count(
    vs: Seq<Voyage>,
    by_month: bool,
    start: Option<i32>,
    end: Option<i32>,
    key: (int, int),
) -> nat
    decreases vs.len(),
{
    if vs.len() == 0 {
        0
    } else {
        period_count(vs.drop_last(), by_month, start, end, key) + if counted(
            vs.last(),
            by_month,
            start,
            end,
            key,
        ) {
            1nat
        } else {
            0nat
        }
    }
}

/// The recorded embarked counts of the voyages of `vs` in the bucket `key`.
pub open spec fn period_embarked(
    vs: Seq<Voyage>,
    by_month: bool,
    start: Option<i32>,
    end: Option<i32>,
    key: (int, int),
) -> int
    decreases vs.len(),
{
    if vs.len() == 0 {
        0
    } else {
        period_embarked(vs.drop_last(), by_month, start, end, key) + if counted(
            vs.last(),
            by_month,
            start,
            end,
            key,
        ) {
            recorded(vs.last().slaves_embarked)
        } else {
            0
        }
    }
}

/// The recorded disembarked counts of the voyages of `vs` in the bucket `key`.
pub open spec fn period_disembarked(
    vs: Seq<Voyage>,
    by_month: bool,
    start: Option<i32>,
    end: Option<i32>,
    key: (int, int),
) -> int
    decreases vs.len(),
{
    if vs.len() == 0 {
        0
    } else {
        period_disembarked(vs.drop_last(), by_month, start, end, key) + if counted(
            vs.last(),
            by_month,
            start,
            end,
            key,
        ) {
            recorded(vs.last().slaves_disembarked)
        } else {
            0
        }
    }
}

/// The bucket that a pattern reports.
pub open spec fn pattern_key(p: TemporalPattern) -> (int, int) {
    (
        p.year as int,
        match p.month {
            Some(m) => m as int,
            None => 0,
        },
    )
}

/// Chronological order of buckets.
pub open spec fn key_less(a: (int, int), b: (int, int)) -> bool {
    a.0 < b.0 || (a.0 == b.0 && a.1 < b.1)
}

/// `p` reports a non-empty bucket of `vs` correctly.
pub open spec fn describes(
    vs: Seq<Voyage>,
    by_month: bool,
    start: Option<i32>,
    end: Option<i32>,
    p: TemporalPattern,
) -> bool {
    &&& (p.month is Some) == by_month
    &&& p.voyage_count == period_count(vs, by_month, start, end, pattern_key(p))
    &&& p.voyage_count > 0
    &&& p.total_embarked == period_embarked(vs, by_month, start, end, pattern_key(p))
    &&& p.total_disembarked == period_disembarked(vs, by_month, start, end, pattern_key(p))
}

/// `r` lists every non-empty bucket of `vs` in the range once, in
/// chronological order.
pub open spec fn is_temporal_report(
    vs: Seq<Voyage>,
    by_month: bool,
    start: Option<i32>,
    end: Option<i32>,
    r: Seq<TemporalPattern>,
) -> bool {
    &&& forall|a: int, b: int|
        0 <= a < b < r.len() ==> key_less(pattern_key(r[a]), pattern_key(r[b]))
    &&& forall|a: int| 0 <= a < r.len() ==> describes(vs, by_month, start, end, #[trigger] r[a])
    &&& forall|i: int|
        0 <= i < vs.len() && voyage_period(#[trigger] vs[i], by_month) is Some && in_years(
            (voyage_period(vs[i], by_month)->0).0,
            start,
            end,
        ) ==> exists|a: int|
            0 <= a < r.len() && pattern_key(#[trigger] r[a]) == voyage_period(vs[i], by_month)->0
}

proof fn lemma_period_bounds(vs: Seq<Voyage>, by_month: bool, start: Option<i32>, end: Option<i32>, key: (int, int))
    ensures
        period_count(vs, by_month, start, end, key) <= vs.len(),
        -(vs.len() * 0x8000_0000) <= period_embarked(vs, by_month, start, end, key) <= vs.len() * 0x8000_0000,
        -(vs.len() * 0x8000_0000) <= period_disembarked(vs, by_month, start, end, key) <= vs.len() * 0x8000_0000,
        period_count(vs, by_month, start, end, key) == 0 ==> period_embarked(vs, by_month, start, end, key) == 0
            && period_disembarked(vs, by_month, start, end, key) == 0,
        period_count(vs, by_month, start, end, key) > 0 ==> exists|i: int|
            0 <= i < vs.len() && counted(#[trigger] vs[i], by_month, start, end, key),
    decreases vs.len(),
{
    if vs.len() > 0 {
        let rest = vs.drop_last();
        lemma_period_bounds(rest, by_month, start, end, key);
        if period_count(rest, by_month, start, end, key) > 0 {
            let i = choose|i: int| 0 <= i < rest.len() && counted(#[trigger] rest[i], by_month, start, end, key);
            assert(vs[i] == rest[i]);
        }
        if counted(vs.last(), by_month, start, end, key) {
            assert(vs[vs.len() - 1] == vs.last());
        }
    }
}

fn period_of(v: &Voyage, by_month: bool) -> (r: Option<(i64, i64)>)
    ensures
        match voyage_period(*v, by_month) {
            Some((y, m)) => r is Some && (r->0).0 == y && (r->0).1 == m && 0 <= y < 10000 && 0 <= m <= 12,
            None => r is None,
        },
{
    match date_of(&v.embark_date) {
        Some((y, m, _d)) => Some((y, if by_month { m } else { 0 })),
        None => None,
    }
}

fn in_years_exec(y: i64, start: Option<i32>, end: Option<i32>) -> (r: bool)
    ensures
        r == in_years(y as int, start, end),
{
    let after_start = match start {
        Some(s) => s as i64 <= y,
        None => true,
    };
    let before_end = match end {
        Some(e) => y <= e as i64,
        None => true,
    };
    after_start && before_end
}

fn pattern_key_exec(p: &TemporalPattern) -> (r: (i64, i64))
    ensures
        r.0 == pattern_key(*p).0,
        r.1 == pattern_key(*p).1,
{
    (
        p.year as i64,
        match p.month {
            Some(m) => m as i64,
            None => 0,
        },
    )
}

fn pattern_before(p: &TemporalPattern, y: i64, m: i64) -> (r: bool)
    ensures
        r == key_less(pattern_key(*p), (y as int, m as int)),
{
    let (py, pm) = pattern_key_exec(p);
    py < y || (py == y && pm < m)
}

/// Adds `v` to the report `r` of `before`, giving the report of `before`
/// followed by `v`.
#[verifier::rlimit(50)]
fn record_voyage(
    r: &mut Vec<TemporalPattern>,
    v: &Voyage,
    by_month: bool,
    start: Option<i32>,
    end: Option<i32>,
    Ghost(before): Ghost<Seq<Voyage>>,
)
    requires
        before.len() < 0xffff_ffff_ffff_ffff,
        is_temporal_report(before, by_month, start, end, old(r)@),
    ensures
        is_temporal_report(before.push(*v), by_month, start, end, final(r)@),
{
    let ghost after = before.push(*v);
    proof {
        assert(after.drop_last() == before);
        assert(after.last() == *v);
        assert forall|j: int| 0 <= j < before.len() implies after[j] == before[j] by {}
    }
    let period = period_of(v, by_month);
    let (y, m) = match period {
        Some(k) => k,
        None => (0, 0),
    };
    if !(period.is_some() && in_years_exec(y, start, end)) {
        proof {
            let old_r = r@;
            assert forall|a: int| 0 <= a < r@.len() implies describes(after, by_month, start, end, #[trigger] r@[a]) by {
                assert(describes(before, by_month, start, end, old_r[a]));
            }
            assert forall|j: int|
                0 <= j < after.len() && voyage_period(#[trigger] after[j], by_month) is Some && in_years(
                    (voyage_period(after[j], by_month)->0).0,
                    start,
                    end,
                ) implies exists|a: int|
                    0 <= a < r@.len() && pattern_key(#[trigger] r@[a]) == voyage_period(after[j], by_month)->0 by {
                assert(after[j] == before[j]);
            }
        }
        return;
    }
    let ghost key = (y as int, m as int);
    let len = r.len();
    let mut p: usize = 0;
    while p < len && pattern_before(&r[p], y, m)
        invariant
            len == r@.len(),
            p <= len,
            key == (y as int, m as int),
            forall|a: int| 0 <= a < p ==> key_less(pattern_key(#[trigger] r@[a]), key),
        decreases len - p,
    {
        p = p + 1;
    }
    proof {
        lemma_period_bounds(before, by_month, start, end, key);
    }
    let (py, pm) = if p < len {
        pattern_key_exec(&r[p])
    } else {
        (0, 0)
    };
    if p < len && py == y && pm == m {
        update_bucket(r, v, by_month, start, end, p, Ghost(before));
    } else {
        insert_bucket(r, v, by_month, start, end, p, y, m, Ghost(before));
    }
}

/// Adds `v` to the bucket at `p`, which is its own.
#[verifier::rlimit(50)]
fn update_bucket(
    r: &mut Vec<TemporalPattern>,
    v: &Voyage,
    by_month: bool,
    start: Option<i32>,
    end: Option<i32>,
    p: usize,
    Ghost(before): Ghost<Seq<Voyage>>,
)
    requires
        before.len() < 0xffff_ffff_ffff_ffff,
        is_temporal_report(before, by_month, start, end, old(r)@),
        p < old(r)@.len(),
        voyage_period(*v, by_month) == Some(pattern_key(old(r)@[p as int])),
        in_years(pattern_key(old(r)@[p as int]).0, start, end),
    ensures
        is_temporal_report(before.push(*v), by_month, start, end, final(r)@),
{
    let ghost after = before.push(*v);
    let ghost key = pattern_key(r@[p as int]);
    proof {
        assert(after.drop_last() == before);
        assert(after.last() == *v);
        assert forall|j: int| 0 <= j < before.len() implies after[j] == before[j] by {}
        lemma_period_bounds(before, by_month, start, end, key);
        assert(describes(before, by_month, start, end, r@[p as int]));
    }
    let old_p = r[p];
    let ghost old_r = r@;
    let new_p = TemporalPattern {
        year: old_p.year,
        month: old_p.month,
        voyage_count: old_p.voyage_count + 1,
        total_embarked: old_p.total_embarked + match v.slaves_embarked {
            Some(n) => n as i128,
            None => 0,
        },
        total_disembarked: old_p.total_disembarked + match v.slaves_disembarked {
            Some(n) => n as i128,
            None => 0,
        },
    };
    r.set(p, new_p);
    proof {
        assert(counted(*v, by_month, start, end, key));
        assert forall|a: int| 0 <= a < r@.len() implies describes(after, by_month, start, end, #[trigger] r@[a]) by {
            assert(describes(before, by_month, start, end, old_r[a]));
            if a == p {
                assert(r@[a] == new_p);
                assert(pattern_key(new_p) == key);
            } else {
                assert(r@[a] == old_r[a]);
                if a < p {
                    assert(key_less(pattern_key(old_r[a]), pattern_key(old_r[p as int])));
                } else {
                    assert(key_less(pattern_key(old_r[p as int]), pattern_key(old_r[a])));
                }
                assert(pattern_key(old_r[a]) != key);
            }
        }
        assert forall|j: int|
            0 <= j < after.len() && voyage_period(#[trigger] after[j], by_month) is Some && in_years(
                (voyage_period(after[j], by_month)->0).0,
                start,
                end,
            ) implies exists|a: int|
                0 <= a < r@.len() && pattern_key(#[trigger] r@[a]) == voyage_period(after[j], by_month)->0 by {
            if j < before.len() {
                assert(after[j] == before[j]);
                let a = choose|a: int|
                    0 <= a < old_r.len() && pattern_key(#[trigger] old_r[a]) == voyage_period(before[j], by_month)->0;
                assert(pattern_key(r@[a]) == pattern_key(old_r[a]));
            } else {
                assert(pattern_key(r@[p as int]) == key);
            }
        }
        assert forall|a: int, b: int|
            0 <= a < b < r@.len() implies key_less(pattern_key(r@[a]), pattern_key(r@[b])) by {
            assert(pattern_key(r@[a]) == pattern_key(old_r[a]));
            assert(pattern_key(r@[b]) == pattern_key(old_r[b]));
        }
    }
}

/// Opens a new bucket for `v` at `p`, where its key `(y, m)` belongs.
#[verifier::rlimit(50)]
fn insert_bucket(
    r: &mut Vec<TemporalPattern>,
    v: &Voyage,
    by_month: bool,
    start: Option<i32>,
    end: Option<i32>,
    p: usize,
    y: i64,
    m: i64,
    Ghost(before): Ghost<Seq<Voyage>>,
)
    requires
        is_temporal_report(before, by_month, start, end, old(r)@),
        p <= old(r)@.len(),
        voyage_period(*v, by_month) == Some((y as int, m as int)),
        0 <= y < 10000,
        0 <= m <= 12,
        in_years(y as int, start, end),
        forall|a: int| 0 <= a < p ==> key_less(pattern_key(#[trigger] old(r)@[a]), (y as int, m as int)),
        p < old(r)@.len() ==> key_less((y as int, m as int), pattern_key(old(r)@[p as int])),
    ensures
        is_temporal_report(before.push(*v), by_month, start, end, final(r)@),
{
    let ghost after = before.push(*v);
    let ghost key = (y as int, m as int);
    let ghost old_r = r@;
    proof {
        assert(after.drop_last() == before);
        assert(after.last() == *v);
        assert forall|j: int| 0 <= j < before.len() implies after[j] == before[j] by {}
        lemma_period_bounds(before, by_month, start, end, key);
        // No bucket holds `key` yet, so no earlier voyage fell in it.
        if period_count(before, by_month, start, end, key) > 0 {
            let j = choose|j: int| 0 <= j < before.len() && counted(#[trigger] before[j], by_month, start, end, key);
            let a = choose|a: int|
                0 <= a < old_r.len() && pattern_key(#[trigger] old_r[a]) == voyage_period(before[j], by_month)->0;
            if a < p {
                assert(key_less(pattern_key(old_r[a]), key));
            } else if a > p {
                assert(key_less(pattern_key(old_r[p as int]), pattern_key(old_r[a])));
            }
        }
    }
    let new_p = TemporalPattern {
        year: y as i32,
        month: if by_month {
            Some(m as i32)
        } else {
            None
        },
        voyage_count: 1,
        total_embarked: match v.slaves_embarked {
            Some(n) => n as i128,
            None => 0,
        },
        total_disembarked: match v.slaves_disembarked {
            Some(n) => n as i128,
            None => 0,
        },
    };
    r.insert(p, new_p);
    proof {
        assert(r@ == old_r.insert(p as int, new_p));
        assert(pattern_key(new_p) == key);
        assert(period_count(before, by_month, start, end, key) == 0);
        assert(counted(*v, by_month, start, end, key));
        assert(period_count(after, by_month, start, end, key) == 1);
        assert forall|a: int| 0 <= a < r@.len() implies describes(after, by_month, start, end, #[trigger] r@[a]) by {
            if a < p {
                assert(r@[a] == old_r[a]);
                assert(describes(before, by_month, start, end, old_r[a]));
                assert(pattern_key(old_r[a]) != key);
            } else if a > p {
                assert(r@[a] == old_r[a - 1]);
                assert(describes(before, by_month, start, end, old_r[a - 1]));
                if a - 1 > p {
                    assert(key_less(pattern_key(old_r[p as int]), pattern_key(old_r[a - 1])));
                }
                assert(pattern_key(old_r[a - 1]) != key);
            } else {
                assert(r@[a] == new_p);
            }
        }
        assert forall|j: int|
            0 <= j < after.len() && voyage_period(#[trigger] after[j], by_month) is Some && in_years(
                (voyage_period(after[j], by_month)->0).0,
                start,
                end,
            ) implies exists|a: int|
                0 <= a < r@.len() && pattern_key(#[trigger] r@[a]) == voyage_period(after[j], by_month)->0 by {
            if j < before.len() {
                assert(after[j] == before[j]);
                let a = choose|a: int|
                    0 <= a < old_r.len() && pattern_key(#[trigger] old_r[a]) == voyage_period(before[j], by_month)->0;
                if a < p {
                    assert(r@[a] == old_r[a]);
                } else {
                    assert(r@[a + 1] == old_r[a]);
                }
            } else {
                assert(r@[p as int] == new_p);
            }
        }
        assert forall|a: int, b: int|
            0 <= a < b < r@.len() implies key_less(pattern_key(r@[a]), pattern_key(r@[b])) by {
            if b < p {
                assert(r@[a] == old_r[a] && r@[b] == old_r[b]);
            } else if b == p {
                assert(r@[a] == old_r[a]);
            } else if a < p {
                assert(r@[a] == old_r[a] && r@[b] == old_r[b - 1]);
            } else if a == p {
                assert(r@[b] == old_r[b - 1]);
                if b - 1 > p {
                    assert(key_less(pattern_key(old_r[p as int]), pattern_key(old_r[b - 1])));
                }
            } else {
                assert(r@[a] == old_r[a - 1] && r@[b] == old_r[b - 1]);
            }
        }
    }
}

/// Buckets the voyages by the year of their embarkation (and its month when
/// `by_month`), keeping the years within the inclusive range that `start_year`
/// and `end_year` bound when given. Each bucket counts its voyages and sums
/// their recorded embarked and disembarked counts; buckets come in
/// chronological order. Voyages without a readable embarkation date fall in
/// no bucket.
pub fn analyze_temporal_patterns(
    store: &Store,
    by_month: bool,
    start_year: Option<i32>,
    end_year: Option<i32>,
) -> (r: Vec<TemporalPattern>)
    ensures
        is_temporal_report(store.voyages@, by_month, start_year, end_year, r@),
{
    let ghost vs = store.voyages@;
    let mut r: Vec<TemporalPattern> = Vec::new();
    let mut i: usize = 0;
    while i < store.voyages.len()
        invariant
            vs == store.voyages@,
            i <= vs.len(),
            is_temporal_report(vs.subrange(0, i as int), by_month, start_year, end_year, r@),
        decreases vs.len() - i,
    {
        assert(vs.subrange(0, i + 1) == vs.subrange(0, i as int).push(vs[i as int]));
        record_voyage(&mut r, &store.voyages[i], by_month, start_year, end_year, Ghost(vs.subrange(0, i as int)));
        i = i + 1;
    }
    assert(vs.subrange(0, vs.len() as int) == vs);
    r
}

/// When no voyage's embarkation year lies in the range, the report is empty.
pub proof fn lemma_report_empty_outside_data(
    vs: Seq<Voyage>,
    by_month: bool,
    start: Option<i32>,
    end: Option<i32>,
    r: Seq<TemporalPattern>,
)
    requires
        is_temporal_report(vs, by_month, start, end, r),
        forall|i: int|
            0 <= i < vs.len() && voyage_period(#[trigger] vs[i], by_month) is Some ==> !in_years(
                (voyage_period(vs[i], by_month)->0).0,
                start,
                end,
            ),
    ensures
        r.len() == 0,
{
    if r.len() > 0 {
        let key = pattern_key(r[0]);
        assert(describes(vs, by_month, start, end, r[0]));
        lemma_period_bounds(vs, by_month, start, end, key);
        let i = choose|i: int| 0 <= i < vs.len() && counted(#[trigger] vs[i], by_month, start, end, key);
        assert(voyage_period(vs[i], by_month) is Some);
    }
}

/// An inverted range, whose start year follows its end year, gives an empty
/// report.
pub proof fn lemma_report_empty_inverted_range(
    vs: Seq<Voyage>,
    by_month: bool,
    start: i32,
    end: i32,
    r: Seq<TemporalPattern>,
)
    requires
        is_temporal_report(vs, by_month, Some(start), Some(end), r),
        start > end,
    ensures
        r.len() == 0,
{
    lemma_report_empty_outside_data(vs, by_month, Some(start), Some(end), r);
}

/// Analysing the same route twice over the same store gives the same figures.
pub proof fn lemma_route_analysis_deterministic(
    voyages: Seq<Voyage>,
    origin: Place,
    destination: Place,
    a1: RouteAnalysis,
    a2: RouteAnalysis,
)
    requires
        is_route_analysis(voyages, origin, destination, a1),
        is_route_analysis(voyages, origin, destination, a2),
    ensures
        a1 == a2,
{
}

/// Every bucket that one report lists, another report of the same voyages
/// lists too.
proof fn lemma_report_keys_shared(
    vs: Seq<Voyage>,
    by_month: bool,
    start: Option<i32>,
    end: Option<i32>,
    r1: Seq<TemporalPattern>,
    r2: Seq<TemporalPattern>,
    a: int,
) -> (b: int)
    requires
        is_temporal_report(vs, by_month, start, end, r1),
        is_temporal_report(vs, by_month, start, end, r2),
        0 <= a < r1.len(),
    ensures
        0 <= b < r2.len(),
        pattern_key(r2[b]) == pattern_key(r1[a]),
{
    let key = pattern_key(r1[a]);
    assert(describes(vs, by_month, start, end, r1[a]));
    lemma_period_bounds(vs, by_month, start, end, key);
    let j = choose|j: int| 0 <= j < vs.len() && counted(#[trigger] vs[j], by_month, start, end, key);
    assert(voyage_period(vs[j], by_month) is Some);
    choose|b: int| 0 <= b < r2.len() && pattern_key(#[trigger] r2[b]) == voyage_period(vs[j], by_month)->0
}

/// Two reports of the same voyages list the same buckets in the same places.
proof fn lemma_report_keys_agree(
    vs: Seq<Voyage>,
    by_month: bool,
    start: Option<i32>,
    end: Option<i32>,
    r1: Seq<TemporalPattern>,
    r2: Seq<TemporalPattern>,
    n: int,
)
    requires
        is_temporal_report(vs, by_month, start, end, r1),
        is_temporal_report(vs, by_month, start, end, r2),
        0 <= n <= r1.len(),
        n <= r2.len(),
    ensures
        forall|a: int| 0 <= a < n ==> pattern_key(#[trigger] r1[a]) == pattern_key(r2[a]),
    decreases n,
{
    if n > 0 {
        let a = n - 1;
        lemma_report_keys_agree(vs, by_month, start, end, r1, r2, a);
        let k1 = pattern_key(r1[a]);
        let k2 = pattern_key(r2[a]);
        if k1 != k2 {
            if key_less(k1, k2) {
                let b = lemma_report_keys_shared(vs, by_month, start, end, r1, r2, a);
                if b < a {
                    assert(pattern_key(r1[b]) == pattern_key(r2[b]));
                    assert(key_less(pattern_key(r1[b]), pattern_key(r1[a])));
                } else if b > a {
                    assert(key_less(pattern_key(r2[a]), pattern_key(r2[b])));
                }
            } else {
                let b = lemma_report_keys_shared(vs, by_month, start, end, r2, r1, a);
                if b < a {
                    assert(pattern_key(r1[b]) == pattern_key(r2[b]));
                    assert(key_less(pattern_key(r2[b]), pattern_key(r2[a])));
                } else if b > a {
                    assert(key_less(pattern_key(r1[a]), pattern_key(r1[b])));
                }
            }
        }
    }
}

/// Bucketing the same voyages twice with the same arguments gives the same
/// report.
pub proof fn lemma_temporal_deterministic(
    vs: Seq<Voyage>,
    by_month: bool,
    start: Option<i32>,
    end: Option<i32>,
    r1: Seq<TemporalPattern>,
    r2: Seq<TemporalPattern>,
)
    requires
        is_temporal_report(vs, by_month, start, end, r1),
        is_temporal_report(vs, by_month, start, end, r2),
    ensures
        r1 == r2,
{
    let n = if r1.len() < r2.len() { r1.len() as int } else { r2.len() as int };
    lemma_report_keys_agree(vs, by_month, start, end, r1, r2, n);
    if r1.len() > r2.len() {
        let b = lemma_report_keys_shared(vs, by_month, start, end, r1, r2, n);
        assert(pattern_key(r1[b]) == pattern_key(r2[b]));
        assert(key_less(pattern_key(r1[b]), pattern_key(r1[n])));
    } else if r2.len() > r1.len() {
        let b = lemma_report_keys_shared(vs, by_month, start, end, r2, r1, n);
        assert(pattern_key(r1[b]) == pattern_key(r2[b]));
        assert(key_less(pattern_key(r2[b]), pattern_key(r2[n])));
    }
    assert forall|a: int| 0 <= a < r1.len() implies r1[a] == r2[a] by {
        assert(pattern_key(r1[a]) == pattern_key(r2[a]));
        assert(describes(vs, by_month, start, end, r1[a]));
        assert(describes(vs, by_month, start, end, r2[a]));
    }
    assert(r1 =~= r2);
}

} // verus!
