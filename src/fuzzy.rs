//! Fuzzy port matching: edit distance and bigram similarity over a port's
//! name and regions, with bonuses for prefix and substring hits.
use vstd::prelude::*;
use crate::rank::{is_ranking, lemma_ranking_unique, rank_by_key};
use crate::text::{chars_of, contains, contains_exec, starts_with, starts_with_exec};

verus! {

/// The most ports that the simple search returns.
pub const SIMPLE_LIMIT: usize = 4;

/// The most ports that the weighted search returns.
pub const FUZZY_LIMIT: usize = 5;

/// A port with the names of its regions.
#[derive(Clone, PartialEq, Debug)]
pub struct Port {
    pub broad_region: String,
    pub specific_region: String,
    pub name: String,
    pub value: i32,
}

impl Port {
    /// A field-by-field copy of this port.
    pub fn duplicate(&self) -> (r: Port)
        ensures
            r == *self,
    {
        Port {
            broad_region: self.broad_region.clone(),
            specific_region: self.specific_region.clone(),
            name: self.name.clone(),
            value: self.value,
        }
    }
}

/// What `str::to_lowercase` makes of a text.
pub uninterp spec fn lower_of(s: Seq<char>) -> Seq<char>;

/// The Damerau-Levenshtein distance that `strsim::damerau_levenshtein` gives.
pub uninterp spec fn edit_distance_of(a: Seq<char>, b: Seq<char>) -> nat;

/// Relies on `str::to_lowercase`: its result depends on the text alone.
#[verifier::external_body]
fn lowercase(s: &str) -> (r: String)
    ensures
        r@ == lower_of(s@),
{
    s.to_lowercase()
}

/// Relies on `strsim::damerau_levenshtein`: the edit distance in which
/// insertion, deletion, substitution and transposition of adjacent characters
/// each cost one; it depends on the two texts alone.
#[verifier::external_body]
fn edit_distance(a: &str, b: &str) -> (r: usize)
    ensures
        r as nat == edit_distance_of(a@, b@),
{
    strsim::damerau_levenshtein(a, b)
}

/// A fraction `num / den` in `[0, 1]`.
#[derive(Clone, Copy, PartialEq, Eq, Debug)]
pub struct Ratio {
    pub num: u128,
    pub den: u128,
}

impl Ratio {
    pub open spec fn wf(self) -> bool {
        self.den > 0 && self.num <= self.den
    }
}

/// The adjacent character pairs of `s`.
pub open spec fn bigrams(s: Seq<char>) -> Seq<(char, char)> {
    Seq::new(if s.len() > 0 { (s.len() - 1) as nat } else { 0 }, |i: int| (s[i], s[i + 1]))
}

/// The first position of `x` in `pool`.
pub open spec fn first_index_of(pool: Seq<(char, char)>, x: (char, char)) -> int {
    choose|k: int| 0 <= k < pool.len() && pool[k] == x && forall|j: int| 0 <= j < k ==> pool[j] != x
}

/// The size of the multiset intersection of `pool` and `b`: each pair of `b`
/// in turn uses up one equal pair of `pool`.
pub open spec fn shared_pairs(pool: Seq<(char, char)>, b: Seq<(char, char)>) -> nat
    decreases b.len(),
{
    if b.len() == 0 {
        0
    } else if pool.contains(b[0]) {
        1 + shared_pairs(pool.remove(first_index_of(pool, b[0])), b.drop_first())
    } else {
        shared_pairs(pool, b.drop_first())
    }
}

/// The Sørensen-Dice coefficient of the bigrams of `a` and `b`,
/// `2 |bigrams(a) ∩ bigrams(b)| / (|bigrams(a)| + |bigrams(b)|)`; with no
/// bigrams at all, 1 for equal texts and 0 otherwise.
pub open spec fn dice(a: Seq<char>, b: Seq<char>) -> Ratio {
    let total = bigrams(a).len() + bigrams(b).len();
    if total == 0 {
        Ratio { num: if a == b { 1 } else { 0 }, den: 1 }
    } else {
        Ratio { num: (2 * shared_pairs(bigrams(a), bigrams(b))) as u128, den: total as u128 }
    }
}

proof fn lemma_shared_bound(pool: Seq<(char, char)>, b: Seq<(char, char)>)
    ensures
        shared_pairs(pool, b) <= pool.len(),
        shared_pairs(pool, b) <= b.len(),
    decreases b.len(),
{
    if b.len() > 0 {
        if pool.contains(b[0]) {
            let k = choose|k: int| 0 <= k < pool.len() && pool[k] == b[0];
            lemma_first_index(pool, b[0], k);
            lemma_shared_bound(pool.remove(first_index_of(pool, b[0])), b.drop_first());
        } else {
            lemma_shared_bound(pool, b.drop_first());
        }
    }
}

/// `first_index_of` names the first occurrence of `x`.
proof fn lemma_first_index(pool: Seq<(char, char)>, x: (char, char), k: int)
    requires
        0 <= k < pool.len(),
        pool[k] == x,
    ensures
        0 <= first_index_of(pool, x) <= k,
        pool[first_index_of(pool, x)] == x,
        forall|j: int| 0 <= j < first_index_of(pool, x) ==> pool[j] != x,
    decreases k,
{
    if exists|j: int| 0 <= j < k && pool[j] == x {
        let j = choose|j: int| 0 <= j < k && pool[j] == x;
        lemma_first_index(pool, x, j);
    } else {
        assert(0 <= k < pool.len() && pool[k] == x && forall|j: int| 0 <= j < k ==> pool[j] != x);
        let f = first_index_of(pool, x);
        if f > k {
            assert(pool[k] != x);
        }
    }
}

fn bigrams_exec(s: &Vec<char>) -> (r: Vec<(char, char)>)
    ensures
        r@ == bigrams(s@),
{
    let mut r: Vec<(char, char)> = Vec::new();
    if s.len() == 0 {
        assert(r@ == bigrams(s@));
        return r;
    }
    let last = s.len() - 1;
    let mut i: usize = 0;
    while i < last
        invariant
            s@.len() > 0,
            last == s@.len() - 1,
            i <= last,
            r@ == bigrams(s@).subrange(0, i as int),
        decreases s@.len() - i,
    {
        r.push((s[i], s[i + 1]));
        i = i + 1;
        assert(r@ == bigrams(s@).subrange(0, i as int));
    }
    assert(r@ == bigrams(s@));
    r
}

/// The Sørensen-Dice coefficient of the bigrams of two texts.
pub fn dice_exec(a: &Vec<char>, b: &Vec<char>) -> (r: Ratio)
    ensures
        r == dice(a@, b@),
        r.wf(),
        r.den <= 0x2_0000_0000_0000_0000,
{
    let pa = bigrams_exec(a);
    let pb = bigrams_exec(b);
    let total: u128 = pa.len() as u128 + pb.len() as u128;
    if total == 0 {
        let equal = crate::text::same_chars(a, b);
        return Ratio { num: if equal { 1 } else { 0 }, den: 1 };
    }
    let ghost all_a = pa@;
    let mut pool = pa;
    let mut count: u128 = 0;
    let mut j: usize = 0;
    assert(pb@.skip(0) == pb@);
    while j < pb.len()
        invariant
            j <= pb@.len(),
            count <= j,
            pb@.len() <= 0xffff_ffff_ffff_ffff,
            shared_pairs(all_a, pb@) == count + shared_pairs(pool@, pb@.skip(j as int)),
        decreases pb@.len() - j,
    {
        let x = pb[j];
        let ghost rest = pb@.skip(j as int);
        assert(rest[0] == x);
        assert(rest.drop_first() == pb@.skip(j + 1));
        let mut k: usize = 0;
        while k < pool.len() && !(pool[k].0 == x.0 && pool[k].1 == x.1)
            invariant
                k <= pool@.len(),
                forall|i: int| 0 <= i < k ==> pool@[i] != x,
            decreases pool@.len() - k,
        {
            k = k + 1;
        }
        if k < pool.len() {
            proof {
                assert(pool@[k as int] == x);
                lemma_first_index(pool@, x, k as int);
                assert(pool@.contains(x));
            }
            pool.remove(k);
            count = count + 1;
        } else {
            assert(!pool@.contains(x));
        }
        j = j + 1;
    }
    proof {
        lemma_shared_bound(all_a, pb@);
        assert(pb@.skip(pb@.len() as int).len() == 0);
    }
    Ratio { num: 2 * count, den: total }
}

/// The features of one port against a lower-case query.
#[derive(Clone, Copy, PartialEq, Eq, Debug)]
pub struct PortMatch {
    pub name_distance: usize,
    pub region_distance: usize,
    pub broad_distance: usize,
    pub name_similarity: Ratio,
    pub region_similarity: Ratio,
    pub broad_similarity: Ratio,
    pub name_starts: bool,
    pub name_contains: bool,
    pub region_starts: bool,
    pub broad_starts: bool,
}

impl PortMatch {
    pub open spec fn wf(self) -> bool {
        self.name_similarity.wf() && self.region_similarity.wf() && self.broad_similarity.wf()
    }
}

/// The features of `p` against the lower-case query `q`.
pub open spec fn port_match(q: Seq<char>, p: Port) -> PortMatch {
    let name = lower_of(p.name@);
    let region = lower_of(p.specific_region@);
    let broad = lower_of(p.broad_region@);
    PortMatch {
        name_distance: edit_distance_of(q, name) as usize,
        region_distance: edit_distance_of(q, region) as usize,
        broad_distance: edit_distance_of(q, broad) as usize,
        name_similarity: dice(q, name),
        region_similarity: dice(q, region),
        broad_similarity: dice(q, broad),
        name_starts: starts_with(name, q),
        name_contains: contains(name, q),
        region_starts: starts_with(region, q),
        broad_starts: starts_with(broad, q),
    }
}

/// Measures `port` against the lower-case query `query`.
pub fn match_port(query: &String, port: &Port) -> (r: PortMatch)
    ensures
        r == port_match(query@, *port),
        r.wf(),
        r.name_similarity.den <= 0x1_0000_0000_0000_0000_0000,
        r.region_similarity.den <= 0x1_0000_0000_0000_0000_0000,
        r.broad_similarity.den <= 0x1_0000_0000_0000_0000_0000,
{
    let name = lowercase(port.name.as_str());
    let region = lowercase(port.specific_region.as_str());
    let broad = lowercase(port.broad_region.as_str());
    let q = chars_of(query.as_str());
    let name_chars = chars_of(name.as_str());
    let region_chars = chars_of(region.as_str());
    let broad_chars = chars_of(broad.as_str());
    PortMatch {
        name_distance: edit_distance(query.as_str(), name.as_str()),
        region_distance: edit_distance(query.as_str(), region.as_str()),
        broad_distance: edit_distance(query.as_str(), broad.as_str()),
        name_similarity: dice_exec(&q, &name_chars),
        region_similarity: dice_exec(&q, &region_chars),
        broad_similarity: dice_exec(&q, &broad_chars),
        name_starts: starts_with_exec(&name_chars, &q),
        name_contains: contains_exec(&name_chars, &q),
        region_starts: starts_with_exec(&region_chars, &q),
        broad_starts: starts_with_exec(&broad_chars, &q),
    }
}

/// `r` is the integer square root of `x`.
pub open spec fn is_floor_sqrt(x: nat, r: nat) -> bool {
    r * r <= x && x < (r + 1) * (r + 1)
}

/// The largest `r` with `r * r <= x`.
pub open spec fn floor_sqrt(x: nat) -> nat {
    choose|r: nat| #[trigger] is_floor_sqrt(x, r)
}

proof fn lemma_floor_sqrt_unique(x: nat, r: nat)
    requires
        r * r <= x < (r + 1) * (r + 1),
    ensures
        floor_sqrt(x) == r,
{
    assert(is_floor_sqrt(x, r));
    let s = floor_sqrt(x);
    assert(is_floor_sqrt(x, s));
    if s < r {
        assert((s + 1) * (s + 1) <= r * r) by (nonlinear_arith)
            requires
                s < r,
        ;
    } else if s > r {
        assert((r + 1) * (r + 1) <= s * s) by (nonlinear_arith)
            requires
                s > r,
        ;
    }
}

/// The integer square root of `x`.
pub fn floor_sqrt_exec(x: u128) -> (r: u128)
    requires
        x < 0x1000_0000_0000_0000_0000_0000_0000_0000,
    ensures
        r == floor_sqrt(x as nat),
        r < 0x1_0000_0000_0000_0000,
{
    let mut lo: u128 = 0;
    let mut hi: u128 = 0x1_0000_0000_0000_0000;
    assert(hi * hi > x) by (nonlinear_arith)
        requires
            hi == 0x1_0000_0000_0000_0000u128,
            x < 0x1000_0000_0000_0000_0000_0000_0000_0000,
    ;
    while lo + 1 < hi
        invariant
            lo < hi <= 0x1_0000_0000_0000_0000,
            lo * lo <= x,
            x < hi * hi,
        decreases hi - lo,
    {
        let mid = lo + (hi - lo) / 2;
        assert(mid * mid < 0x1_0000_0000_0000_0000u128 * 0x1_0000_0000_0000_0000u128) by (nonlinear_arith)
            requires
                mid < 0x1_0000_0000_0000_0000u128,
        ;
        if mid * mid <= x {
            lo = mid;
        } else {
            hi = mid;
        }
    }
    proof {
        assert(hi == lo + 1);
        lemma_floor_sqrt_unique(x as nat, lo as nat);
    }
    lo
}

/// The weighted distances `7 name + 2 region + 1 broad`, in tenths, capped at
/// 2^40 tenths.
pub open spec fn weighted_distance(m: PortMatch) -> int {
    let e = 7 * m.name_distance + 2 * m.region_distance + m.broad_distance;
    if e < DISTANCE_CAP {
        e
    } else {
        DISTANCE_CAP as int
    }
}

/// The largest weighted distance that the score tells apart.
pub const DISTANCE_CAP: u128 = 0x100_0000_0000;

/// A similarity in millionths, rounded down.
pub open spec fn millionths(r: Ratio) -> int {
    (1_000_000 * r.num) / (r.den as int)
}

/// The weighted dissimilarity `1 - (0.7 name + 0.2 region + 0.1 broad)`, in
/// ten-millionths.
pub open spec fn weighted_dissimilarity(m: PortMatch) -> int {
    10_000_000 - (7 * millionths(m.name_similarity) + 2 * millionths(m.region_similarity)
        + millionths(m.broad_similarity))
}

/// The bonus of a match: 1000 when the name starts with the query, 500 when
/// it holds it, 100 when the region starts with it, 50 when the broad region
/// does.
pub open spec fn bonus(m: PortMatch) -> int {
    (if m.name_starts { 1000int } else { 0int }) + (if m.name_contains { 500int } else { 0int }) + (
    if m.region_starts {
        100int
    } else {
        0int
    }) + (if m.broad_starts { 50int } else { 0int })
}

/// The score of a match in ten-millionths, shifted up by the largest bonus so
/// that it is never negative: `sqrt(distance^2 + dissimilarity^2) - bonus`,
/// with distance and dissimilarity the weighted sums (distance in tenths);
/// lower is better.
pub open spec fn score_key(m: PortMatch) -> u128 {
    let e = weighted_distance(m);
    let t = weighted_dissimilarity(m);
    (floor_sqrt((e * e * 1_000_000_000_000 + t * t) as nat) + (1650 - bonus(m)) * 10_000_000) as u128
}

/// Close enough to be ranked: name distance at most 5, or a region distance at most 3.
pub open spec fn admitted(m: PortMatch) -> bool {
    m.name_distance <= 5 || m.region_distance <= 3 || m.broad_distance <= 3
}

fn millionths_exec(r: Ratio) -> (f: u128)
    requires
        r.wf(),
        r.den <= 0x1_0000_0000_0000_0000_0000,
    ensures
        f == millionths(r),
        f <= 1_000_000,
{
    assert(1_000_000 * r.num <= 1_000_000 * r.den) by (nonlinear_arith)
        requires
            r.num <= r.den,
    ;
    let f = (1_000_000 * r.num) / r.den;
    assert(f <= 1_000_000) by (nonlinear_arith)
        requires
            f == (1_000_000 * r.num) / (r.den as int),
            r.num <= r.den,
            r.den > 0,
    ;
    f
}

/// The score of a match; see `score_key`.
pub fn score_key_exec(m: &PortMatch) -> (r: u128)
    requires
        m.wf(),
        m.name_similarity.den <= 0x1_0000_0000_0000_0000_0000,
        m.region_similarity.den <= 0x1_0000_0000_0000_0000_0000,
        m.broad_similarity.den <= 0x1_0000_0000_0000_0000_0000,
    ensures
        r == score_key(*m),
{
    let e_full: u128 = 7 * m.name_distance as u128 + 2 * m.region_distance as u128 + m.broad_distance as u128;
    let e: u128 = if e_full < DISTANCE_CAP {
        e_full
    } else {
        DISTANCE_CAP
    };
    let t: u128 = 10_000_000 - (7 * millionths_exec(m.name_similarity) + 2 * millionths_exec(
        m.region_similarity,
    ) + millionths_exec(m.broad_similarity));
    assert(e * e <= DISTANCE_CAP * DISTANCE_CAP) by (nonlinear_arith)
        requires
            e <= DISTANCE_CAP,
    ;
    assert(t * t <= 10_000_000 * 10_000_000) by (nonlinear_arith)
        requires
            t <= 10_000_000,
    ;
    let root = floor_sqrt_exec(e * e * 1_000_000_000_000 + t * t);
    let mut b: u128 = 0;
    if m.name_starts {
        b = b + 1000;
    }
    if m.name_contains {
        b = b + 500;
    }
    if m.region_starts {
        b = b + 100;
    }
    if m.broad_starts {
        b = b + 50;
    }
    root + (1650 - b) * 10_000_000
}

/// The candidates of a weighted search: each port beside its match, where the
/// match is close enough, in port order.
pub open spec fn fuzzy_candidates(ports: Seq<Port>, ms: Seq<PortMatch>) -> Seq<(Port, PortMatch)> {
    admitted_pairs(port_pairs(ports, ms))
}

/// Each port beside its match.
pub open spec fn port_pairs(ports: Seq<Port>, ms: Seq<PortMatch>) -> Seq<(Port, PortMatch)> {
    Seq::new(ports.len(), |i: int| (ports[i], ms[i]))
}

/// The pairs whose match is close enough, in order.
pub open spec fn admitted_pairs(pairs: Seq<(Port, PortMatch)>) -> Seq<(Port, PortMatch)> {
    pairs.filter(|c: (Port, PortMatch)| admitted(c.1))
}

pub open spec fn fuzzy_keys(cands: Seq<(Port, PortMatch)>) -> Seq<u128> {
    cands.map_values(|c: (Port, PortMatch)| score_key(c.1))
}

/// `r` is the answer of a weighted search over `ports` with the matches `ms`:
/// the `FUZZY_LIMIT` admitted ports of lowest score, ties in port order.
pub open spec fn is_fuzzy_result(ports: Seq<Port>, ms: Seq<PortMatch>, r: Seq<Port>) -> bool {
    let cands = fuzzy_candidates(ports, ms);
    exists|order: Seq<usize>|
        is_ranking(fuzzy_keys(cands), FUZZY_LIMIT as int, order) && r == order.map_values(
            |i: usize| cands[i as int].0,
        )
}

/// Ranks `ports` by their matches `matches` (one each, in the same order):
/// keeps those that are close enough, orders them by score, lowest first and
/// ties in port order, and returns the first `FUZZY_LIMIT`.
pub fn rank_port_matches(ports: &Vec<Port>, matches: &Vec<PortMatch>) -> (r: Vec<Port>)
    requires
        ports@.len() == matches@.len(),
        forall|i: int|
            0 <= i < matches@.len() ==> (#[trigger] matches@[i]).wf()
                && matches@[i].name_similarity.den <= 0x1_0000_0000_0000_0000_0000
                && matches@[i].region_similarity.den <= 0x1_0000_0000_0000_0000_0000
                && matches@[i].broad_similarity.den <= 0x1_0000_0000_0000_0000_0000,
    ensures
        is_fuzzy_result(ports@, matches@, r@),
{
    let ghost all = port_pairs(ports@, matches@);
    let mut cands: Vec<Port> = Vec::new();
    let mut keys: Vec<u128> = Vec::new();
    let ghost mut cand_pairs: Seq<(Port, PortMatch)> = Seq::empty();
    let mut i: usize = 0;
    while i < ports.len()
        invariant
            ports@.len() == matches@.len(),
            all == port_pairs(ports@, matches@),
            forall|i: int|
                0 <= i < matches@.len() ==> (#[trigger] matches@[i]).wf()
                    && matches@[i].name_similarity.den <= 0x1_0000_0000_0000_0000_0000
                    && matches@[i].region_similarity.den <= 0x1_0000_0000_0000_0000_0000
                    && matches@[i].broad_similarity.den <= 0x1_0000_0000_0000_0000_0000,
            i <= ports@.len(),
            cand_pairs == admitted_pairs(all.subrange(0, i as int)),
            cands@ == cand_pairs.map_values(|c: (Port, PortMatch)| c.0),
            keys@ == fuzzy_keys(cand_pairs),
        decreases ports@.len() - i,
    {
        let m = &matches[i];
        proof {
            reveal(Seq::filter);
            assert(all.subrange(0, i + 1).drop_last() == all.subrange(0, i as int));
            assert(all.subrange(0, i + 1).last() == (ports@[i as int], matches@[i as int]));
        }
        if m.name_distance <= 5 || m.region_distance <= 3 || m.broad_distance <= 3 {
            let key = score_key_exec(m);
            proof {
                cand_pairs = cand_pairs.push((ports@[i as int], matches@[i as int]));
            }
            cands.push(ports[i].duplicate());
            keys.push(key);
            assert(cands@ == cand_pairs.map_values(|c: (Port, PortMatch)| c.0));
            assert(keys@ == fuzzy_keys(cand_pairs));
        }
        i = i + 1;
    }
    assert(all.subrange(0, ports@.len() as int) == all);
    let order = rank_by_key(&keys, FUZZY_LIMIT);
    let mut r: Vec<Port> = Vec::new();
    let mut a: usize = 0;
    while a < order.len()
        invariant
            a <= order@.len(),
            is_ranking(keys@, FUZZY_LIMIT as int, order@),
            keys@.len() == cands@.len(),
            cands@.len() == cand_pairs.len(),
            cands@ == cand_pairs.map_values(|c: (Port, PortMatch)| c.0),
            r@ == order@.subrange(0, a as int).map_values(|i: usize| cand_pairs[i as int].0),
        decreases order@.len() - a,
    {
        r.push(cands[order[a]].duplicate());
        a = a + 1;
        assert(r@ == order@.subrange(0, a as int).map_values(|i: usize| cand_pairs[i as int].0));
    }
    assert(order@.subrange(0, order@.len() as int) == order@);
    assert(cand_pairs == fuzzy_candidates(ports@, matches@));
    assert(is_ranking(fuzzy_keys(cand_pairs), FUZZY_LIMIT as int, order@));
    assert(r@ == order@.map_values(|i: usize| cand_pairs[i as int].0));
    r
}

/// The matches of `ports` against the lower-case query `q`.
pub open spec fn port_matches(q: Seq<char>, ports: Seq<Port>) -> Seq<PortMatch> {
    ports.map_values(|p: Port| port_match(q, p))
}

/// Searches `ports` for `search_term`, ignoring case: every port whose name
/// is within edit distance 5 of the term, or one of whose regions is within
/// 3, is scored by the weighted distance and dissimilarity of its name and
/// regions, less its bonuses; the `FUZZY_LIMIT` lowest scores are returned,
/// lowest first, ties in port order.
pub fn search_ports_with_region(ports: &Vec<Port>, search_term: &str) -> (r: Vec<Port>)
    ensures
        is_fuzzy_result(ports@, port_matches(lower_of(search_term@), ports@), r@),
{
    let query = lowercase(search_term);
    let mut matches: Vec<PortMatch> = Vec::new();
    let mut i: usize = 0;
    while i < ports.len()
        invariant
            i <= ports@.len(),
            query@ == lower_of(search_term@),
            matches@ == port_matches(query@, ports@.subrange(0, i as int)),
            forall|k: int|
                0 <= k < matches@.len() ==> (#[trigger] matches@[k]).wf()
                    && matches@[k].name_similarity.den <= 0x1_0000_0000_0000_0000_0000
                    && matches@[k].region_similarity.den <= 0x1_0000_0000_0000_0000_0000
                    && matches@[k].broad_similarity.den <= 0x1_0000_0000_0000_0000_0000,
        decreases ports@.len() - i,
    {
        matches.push(match_port(&query, &ports[i]));
        i = i + 1;
        assert(matches@ == port_matches(query@, ports@.subrange(0, i as int)));
    }
    assert(ports@.subrange(0, ports@.len() as int) == ports@);
    rank_port_matches(ports, &matches)
}

/// `p` is one of `ports` whose match is close enough.
pub open spec fn port_admitted_in(ports: Seq<Port>, ms: Seq<PortMatch>, p: Port) -> bool {
    exists|i: int| 0 <= i < ports.len() && ports[i] == p && admitted(#[trigger] ms[i])
}

/// Every port of a weighted search is close enough, and there are at most
/// `FUZZY_LIMIT` of them.
pub proof fn lemma_fuzzy_results_admitted(ports: Seq<Port>, ms: Seq<PortMatch>, r: Seq<Port>)
    requires
        ports.len() == ms.len(),
        is_fuzzy_result(ports, ms, r),
    ensures
        r.len() <= FUZZY_LIMIT,
        forall|a: int| 0 <= a < r.len() ==> port_admitted_in(ports, ms, #[trigger] r[a]),
{
    broadcast use vstd::seq_lib::group_filter_ensures;
    let cands = fuzzy_candidates(ports, ms);
    let all = port_pairs(ports, ms);
    let order = choose|order: Seq<usize>|
        is_ranking(fuzzy_keys(cands), FUZZY_LIMIT as int, order) && r == order.map_values(
            |i: usize| cands[i as int].0,
        );
    assert forall|a: int| 0 <= a < r.len() implies port_admitted_in(ports, ms, #[trigger] r[a]) by {
        let k = order[a] as int;
        assert(fuzzy_keys(cands).len() == cands.len());
        assert(0 <= k < cands.len());
        let c = cands[k];
        assert(r[a] == c.0);
        assert(admitted(c.1));
        assert(cands.contains(c));
        all.lemma_filter_contains_rev(|c: (Port, PortMatch)| admitted(c.1), c);
        assert(all.contains(c));
        let i = choose|i: int| 0 <= i < all.len() && all[i] == c;
        assert(all[i] == (ports[i], ms[i]));
        assert(0 <= i < ports.len() && ports[i] == r[a] && admitted(ms[i]));
    }
}

/// A weighted search over the same ports and matches always gives the same
/// ports in the same order.
pub proof fn lemma_fuzzy_deterministic(ports: Seq<Port>, ms: Seq<PortMatch>, r1: Seq<Port>, r2: Seq<Port>)
    requires
        is_fuzzy_result(ports, ms, r1),
        is_fuzzy_result(ports, ms, r2),
    ensures
        r1 == r2,
{
    let cands = fuzzy_candidates(ports, ms);
    let o1 = choose|order: Seq<usize>|
        is_ranking(fuzzy_keys(cands), FUZZY_LIMIT as int, order) && r1 == order.map_values(
            |i: usize| cands[i as int].0,
        );
    let o2 = choose|order: Seq<usize>|
        is_ranking(fuzzy_keys(cands), FUZZY_LIMIT as int, order) && r2 == order.map_values(
            |i: usize| cands[i as int].0,
        );
    lemma_ranking_unique(fuzzy_keys(cands), FUZZY_LIMIT as int, o1, o2);
}

pub open spec fn distance_keys(distances: Seq<usize>) -> Seq<u128> {
    distances.map_values(|d: usize| d as u128)
}

/// `r` is the answer of a simple search over `ports` whose names lie at
/// `distances` from the query: the `SIMPLE_LIMIT` nearest, ties in port order.
pub open spec fn is_simple_result(ports: Seq<Port>, distances: Seq<usize>, r: Seq<Port>) -> bool {
    exists|order: Seq<usize>|
        is_ranking(distance_keys(distances), SIMPLE_LIMIT as int, order) && r == order.map_values(
            |i: usize| ports[i as int],
        )
}

/// Ranks `ports` by the edit distances `distances` of their names (one each,
/// in the same order) and returns the `SIMPLE_LIMIT` nearest, ties in port
/// order.
pub fn rank_ports_by_distance(ports: &Vec<Port>, distances: &Vec<usize>) -> (r: Vec<Port>)
    requires
        ports@.len() == distances@.len(),
    ensures
        is_simple_result(ports@, distances@, r@),
{
    let mut keys: Vec<u128> = Vec::new();
    let mut i: usize = 0;
    while i < distances.len()
        invariant
            i <= distances@.len(),
            keys@ == distance_keys(distances@.subrange(0, i as int)),
        decreases distances@.len() - i,
    {
        keys.push(distances[i] as u128);
        i = i + 1;
        assert(keys@ == distance_keys(distances@.subrange(0, i as int)));
    }
    assert(distances@.subrange(0, distances@.len() as int) == distances@);
    let order = rank_by_key(&keys, SIMPLE_LIMIT);
    let mut r: Vec<Port> = Vec::new();
    let mut a: usize = 0;
    while a < order.len()
        invariant
            a <= order@.len(),
            is_ranking(keys@, SIMPLE_LIMIT as int, order@),
            keys@.len() == ports@.len(),
            r@ == order@.subrange(0, a as int).map_values(|i: usize| ports@[i as int]),
        decreases order@.len() - a,
    {
        r.push(ports[order[a]].duplicate());
        a = a + 1;
        assert(r@ == order@.subrange(0, a as int).map_values(|i: usize| ports@[i as int]));
    }
    assert(order@.subrange(0, order@.len() as int) == order@);
    assert(is_ranking(distance_keys(distances@), SIMPLE_LIMIT as int, order@));
    r
}

/// The edit distances from the lower-case query `q` to the lower-case names of
/// `ports`.
pub open spec fn name_distances(q: Seq<char>, ports: Seq<Port>) -> Seq<usize> {
    ports.map_values(|p: Port| edit_distance_of(q, lower_of(p.name@)) as usize)
}

/// Searches `ports` for `search_term` by the edit distance of their names
/// alone, ignoring case, and returns the `SIMPLE_LIMIT` nearest, ties in port
/// order.
pub fn search_ports(ports: &Vec<Port>, search_term: &str) -> (r: Vec<Port>)
    ensures
        is_simple_result(ports@, name_distances(lower_of(search_term@), ports@), r@),
{
    let query = lowercase(search_term);
    let mut distances: Vec<usize> = Vec::new();
    let mut i: usize = 0;
    while i < ports.len()
        invariant
            i <= ports@.len(),
            query@ == lower_of(search_term@),
            distances@ == name_distances(query@, ports@.subrange(0, i as int)),
        decreases ports@.len() - i,
    {
        let name = lowercase(ports[i].name.as_str());
        distances.push(edit_distance(query.as_str(), name.as_str()));
        i = i + 1;
        assert(distances@ == name_distances(query@, ports@.subrange(0, i as int)));
    }
    assert(ports@.subrange(0, ports@.len() as int) == ports@);
    rank_ports_by_distance(ports, &distances)
}

/// A simple search over the same ports and distances always gives the same
/// ports in the same order.
pub proof fn lemma_simple_deterministic(ports: Seq<Port>, distances: Seq<usize>, r1: Seq<Port>, r2: Seq<Port>)
    requires
        is_simple_result(ports, distances, r1),
        is_simple_result(ports, distances, r2),
    ensures
        r1 == r2,
{
    let keys = distance_keys(distances);
    let o1 = choose|order: Seq<usize>|
        is_ranking(keys, SIMPLE_LIMIT as int, order) && r1 == order.map_values(|i: usize| ports[i as int]);
    let o2 = choose|order: Seq<usize>|
        is_ranking(keys, SIMPLE_LIMIT as int, order) && r2 == order.map_values(|i: usize| ports[i as int]);
    lemma_ranking_unique(keys, SIMPLE_LIMIT as int, o1, o2);
}

/// A simple search returns at most `SIMPLE_LIMIT` ports.
pub proof fn lemma_simple_results_bounded(ports: Seq<Port>, distances: Seq<usize>, r: Seq<Port>)
    requires
        is_simple_result(ports, distances, r),
    ensures
        r.len() <= SIMPLE_LIMIT,
{
}

} // verus!
