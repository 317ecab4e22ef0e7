//! Constrained lexical place search and route resolution.
use vstd::prelude::*;
use crate::model::{NodeType, Place, Store, Voyage};
use crate::rank::{is_ranking, lemma_ranking_unique, rank_by_key};
use crate::text::{
    chars_of, folded_contains, folded_contains_exec, folded_equal, folded_equal_exec, trim_exec, trimmed,
};

verus! {

/// The most places that a search returns.
pub const SEARCH_LIMIT: usize = 10;

/// The levels at which a voyage names its endpoints.
#[derive(Clone, Copy, Debug, PartialEq, Eq, Structural)]
pub enum Level {
    Port,
    Region,
    BroadRegion,
}

/// The value that a voyage records for the endpoint `role` at `level`.
pub open spec fn endpoint(v: Voyage, role: NodeType, level: Level) -> Option<i32> {
    match (role, level) {
        (NodeType::Origin, Level::Port) => v.origin_port,
        (NodeType::Origin, Level::Region) => v.origin_region,
        (NodeType::Origin, Level::BroadRegion) => v.origin_broad_region,
        (NodeType::Destination, Level::Port) => v.destination_port,
        (NodeType::Destination, Level::Region) => v.destination_region,
        (NodeType::Destination, Level::BroadRegion) => v.destination_broad_region,
    }
}

/// The endpoint `role` of `v` is the place `value` at some level.
pub open spec fn side_matches(v: Voyage, role: NodeType, value: i32) -> bool {
    ||| endpoint(v, role, Level::Port) == Some(value)
    ||| endpoint(v, role, Level::Region) == Some(value)
    ||| endpoint(v, role, Level::BroadRegion) == Some(value)
}

/// The other role of a route.
pub open spec fn opposite(role: NodeType) -> NodeType {
    match role {
        NodeType::Origin => NodeType::Destination,
        NodeType::Destination => NodeType::Origin,
    }
}

/// `v` runs from `origin` to `destination`, each matched at any level.
pub open spec fn links(v: Voyage, origin: i32, destination: i32) -> bool {
    side_matches(v, NodeType::Origin, origin) && side_matches(v, NodeType::Destination, destination)
}

/// Some voyage has `candidate` in `role` and `other` in the opposite role.
pub open spec fn reachable(voyages: Seq<Voyage>, role: NodeType, other: i32, candidate: i32) -> bool {
    exists|i: int|
        0 <= i < voyages.len() && side_matches(#[trigger] voyages[i], opposite(role), other)
            && side_matches(voyages[i], role, candidate)
}

/// Whether the search admits `p`: its name holds the query, ignoring ASCII
/// case, and, when the opposite endpoint is chosen, a voyage connects them.
pub open spec fn admits(
    voyages: Seq<Voyage>,
    query: Seq<char>,
    role: NodeType,
    other: Option<Place>,
    p: Place,
) -> bool {
    &&& folded_contains(p.name@, query)
    &&& match other {
        None => true,
        Some(o) => reachable(voyages, role, o.value, p.value),
    }
}

/// The admitted places, in store order.
pub open spec fn candidates(
    places: Seq<Place>,
    voyages: Seq<Voyage>,
    query: Seq<char>,
    role: NodeType,
    other: Option<Place>,
) -> Seq<Place> {
    places.filter(|p: Place| admits(voyages, query, role, other, p))
}

/// The rank key of a candidate: names equal to the query (ignoring ASCII case)
/// first, then shorter names first.
pub open spec fn place_key(p: Place, query: Seq<char>) -> u128 {
    let tier: int = if folded_equal(p.name@, query) { 0 } else { 1 };
    (tier * 0x1_0000_0000_0000_0000 + p.name@.len()) as u128
}

pub open spec fn place_keys(cands: Seq<Place>, query: Seq<char>) -> Seq<u128> {
    cands.map_values(|p: Place| place_key(p, query))
}

/// `r` is the answer to a search: the best `SEARCH_LIMIT` candidates by rank
/// key, ties kept in store order.
pub open spec fn is_search_result(
    places: Seq<Place>,
    voyages: Seq<Voyage>,
    query: Seq<char>,
    role: NodeType,
    other: Option<Place>,
    r: Seq<Place>,
) -> bool {
    let cands = candidates(places, voyages, query, role, other);
    exists|order: Seq<usize>|
        is_ranking(place_keys(cands, query), SEARCH_LIMIT as int, order) && r == order.map_values(
            |i: usize| cands[i as int],
        )
}

/// Every place that a search returns holds the query in its name, ignoring
/// ASCII case, and a search returns at most `SEARCH_LIMIT` places. For
/// `search_places`, `query` is the search text without its leading and
/// trailing white space.
pub proof fn lemma_search_results_hold_query(
    places: Seq<Place>,
    voyages: Seq<Voyage>,
    query: Seq<char>,
    role: NodeType,
    other: Option<Place>,
    r: Seq<Place>,
)
    requires
        is_search_result(places, voyages, query, role, other, r),
    ensures
        r.len() <= SEARCH_LIMIT,
        forall|a: int| 0 <= a < r.len() ==> folded_contains(#[trigger] r[a].name@, query),
{
    broadcast use vstd::seq_lib::group_filter_ensures;
    let cands = candidates(places, voyages, query, role, other);
    let order = choose|order: Seq<usize>|
        is_ranking(place_keys(cands, query), SEARCH_LIMIT as int, order) && r == order.map_values(
            |i: usize| cands[i as int],
        );
    assert forall|a: int| 0 <= a < r.len() implies folded_contains(#[trigger] r[a].name@, query) by {
        let i = order[a] as int;
        assert(r[a] == cands[i]);
        assert(admits(voyages, query, role, other, cands[i]));
    }
}

/// Searching twice with the same arguments over the same store gives the same
/// places in the same order.
pub proof fn lemma_search_deterministic(
    places: Seq<Place>,
    voyages: Seq<Voyage>,
    query: Seq<char>,
    role: NodeType,
    other: Option<Place>,
    r1: Seq<Place>,
    r2: Seq<Place>,
)
    requires
        is_search_result(places, voyages, query, role, other, r1),
        is_search_result(places, voyages, query, role, other, r2),
    ensures
        r1 == r2,
{
    let cands = candidates(places, voyages, query, role, other);
    let keys = place_keys(cands, query);
    let o1 = choose|order: Seq<usize>|
        is_ranking(keys, SEARCH_LIMIT as int, order) && r1 == order.map_values(
            |i: usize| cands[i as int],
        );
    let o2 = choose|order: Seq<usize>|
        is_ranking(keys, SEARCH_LIMIT as int, order) && r2 == order.map_values(
            |i: usize| cands[i as int],
        );
    lemma_ranking_unique(keys, SEARCH_LIMIT as int, o1, o2);
}

fn endpoint_exec(v: &Voyage, role: NodeType, level: Level) -> (r: Option<i32>)
    ensures
        r == endpoint(*v, role, level),
{
    match (role, level) {
        (NodeType::Origin, Level::Port) => v.origin_port,
        (NodeType::Origin, Level::Region) => v.origin_region,
        (NodeType::Origin, Level::BroadRegion) => v.origin_broad_region,
        (NodeType::Destination, Level::Port) => v.destination_port,
        (NodeType::Destination, Level::Region) => v.destination_region,
        (NodeType::Destination, Level::BroadRegion) => v.destination_broad_region,
    }
}

fn is_value(x: Option<i32>, value: i32) -> (r: bool)
    ensures
        r == (x == Some(value)),
{
    match x {
        Some(y) => y == value,
        None => false,
    }
}

/// Whether the endpoint `role` of `v` is the place `value` at some level.
pub fn side_matches_exec(v: &Voyage, role: NodeType, value: i32) -> (r: bool)
    ensures
        r == side_matches(*v, role, value),
{
    is_value(endpoint_exec(v, role, Level::Port), value)
        || is_value(endpoint_exec(v, role, Level::Region), value)
        || is_value(endpoint_exec(v, role, Level::BroadRegion), value)
}

fn opposite_exec(role: NodeType) -> (r: NodeType)
    ensures
        r == opposite(role),
{
    match role {
        NodeType::Origin => NodeType::Destination,
        NodeType::Destination => NodeType::Origin,
    }
}

fn reachable_exec(voyages: &Vec<Voyage>, role: NodeType, other: i32, candidate: i32) -> (r: bool)
    ensures
        r == reachable(voyages@, role, other, candidate),
{
    let other_role = opposite_exec(role);
    let mut i: usize = 0;
    while i < voyages.len()
        invariant
            other_role == opposite(role),
            i <= voyages@.len(),
            forall|k: int|
                0 <= k < i ==> !(side_matches(#[trigger] voyages@[k], opposite(role), other)
                    && side_matches(voyages@[k], role, candidate)),
        decreases voyages@.len() - i,
    {
        if side_matches_exec(&voyages[i], other_role, other) && side_matches_exec(
            &voyages[i],
            role,
            candidate,
        ) {
            return true;
        }
        i = i + 1;
    }
    false
}

/// Searches the places whose name holds `search_query` without its leading
/// and trailing white space (ignoring ASCII case; the empty query, and one of
/// white space only, holds everywhere). When `other_place` is the endpoint
/// already chosen for the opposite role, only places that some voyage connects
/// to it in `node_type`'s role are kept. Names equal to the query come first,
/// then shorter names; at most `SEARCH_LIMIT` places are returned.
pub fn search_places(
    store: &Store,
    search_query: &str,
    node_type: &NodeType,
    other_place: Option<&Place>,
) -> (r: Vec<Place>)
    ensures
        is_search_result(
            store.places@,
            store.voyages@,
            trimmed(search_query@),
            *node_type,
            match other_place {
                Some(o) => Some(*o),
                None => None,
            },
            r@,
        ),
{
    let ghost other = match other_place {
        Some(o) => Some(*o),
        None => None,
    };
    let query = trim_exec(&chars_of(search_query));
    let mut cands: Vec<Place> = Vec::new();
    let mut keys: Vec<u128> = Vec::new();
    let mut i: usize = 0;
    while i < store.places.len()
        invariant
            i <= store.places@.len(),
            query@ == trimmed(search_query@),
            other == match other_place {
                Some(o) => Some(*o),
                None => None::<Place>,
            },
            cands@ == candidates(
                store.places@.subrange(0, i as int),
                store.voyages@,
                trimmed(search_query@),
                *node_type,
                other,
            ),
            keys@ == place_keys(cands@, query@),
        decreases store.places@.len() - i,
    {
        let p = &store.places[i];
        let name = chars_of(p.name.as_str());
        let admitted = folded_contains_exec(&name, &query) && match other_place {
            None => true,
            Some(o) => reachable_exec(&store.voyages, *node_type, o.value, p.value),
        };
        proof {
            reveal(Seq::filter);
            assert(store.places@.subrange(0, i + 1).drop_last() == store.places@.subrange(0, i as int));
            assert(store.places@.subrange(0, i + 1).last() == *p);
            assert(admitted == admits(store.voyages@, trimmed(search_query@), *node_type, other, *p));
        }
        if admitted {
            let tier: u128 = if folded_equal_exec(&name, &query) {
                0
            } else {
                1
            };
            let key: u128 = tier * 0x1_0000_0000_0000_0000u128 + name.len() as u128;
            cands.push(p.duplicate());
            keys.push(key);
            assert(keys@ == place_keys(cands@, query@));
        }
        i = i + 1;
    }
    assert(store.places@.subrange(0, store.places@.len() as int) == store.places@);
    let order = rank_by_key(&keys, SEARCH_LIMIT);
    let mut r: Vec<Place> = Vec::new();
    let mut a: usize = 0;
    while a < order.len()
        invariant
            a <= order@.len(),
            is_ranking(keys@, SEARCH_LIMIT as int, order@),
            keys@.len() == cands@.len(),
            r@ == order@.subrange(0, a as int).map_values(|i: usize| cands@[i as int]),
        decreases order@.len() - a,
    {
        r.push(cands[order[a]].duplicate());
        a = a + 1;
        assert(r@ == order@.subrange(0, a as int).map_values(|i: usize| cands@[i as int]));
    }
    assert(order@.subrange(0, order@.len() as int) == order@);
    assert(is_ranking(place_keys(cands@, trimmed(search_query@)), SEARCH_LIMIT as int, order@) && r@
        == order@.map_values(|i: usize| cands@[i as int]));
    r
}

/// `a` sorts before `b` as text: by character codes, a proper prefix first.
pub open spec fn text_less(a: Seq<char>, b: Seq<char>) -> bool
    decreases a.len(),
{
    if a.len() == 0 {
        b.len() > 0
    } else if b.len() == 0 {
        false
    } else if a[0] != b[0] {
        (a[0] as u32) < (b[0] as u32)
    } else {
        text_less(a.drop_first(), b.drop_first())
    }
}

/// The voyages from `origin` to `destination`, in store order.
pub open spec fn route_voyages(voyages: Seq<Voyage>, origin: i32, destination: i32) -> Seq<Voyage> {
    voyages.filter(|v: Voyage| links(v, origin, destination))
}

/// How many voyages of `vs` have an embarkation date that sorts before `d`.
pub open spec fn earlier_dates(vs: Seq<Voyage>, d: Seq<char>) -> nat
    decreases vs.len(),
{
    if vs.len() == 0 {
        0
    } else {
        earlier_dates(vs.drop_last(), d) + match vs.last().embark_date {
            Some(e) => if text_less(e@, d) {
                1nat
            } else {
                0nat
            },
            None => 0nat,
        }
    }
}

/// The sort key of a voyage among `vs`: dated voyages by the rank of their
/// date, then undated ones.
pub open spec fn date_key(vs: Seq<Voyage>, v: Voyage) -> u128 {
    match v.embark_date {
        Some(d) => earlier_dates(vs, d@) as u128,
        None => vs.len() as u128,
    }
}

pub open spec fn date_keys(vs: Seq<Voyage>) -> Seq<u128> {
    vs.map_values(|v: Voyage| date_key(vs, v))
}

/// `r` holds every voyage from `origin` to `destination`: dated ones first, by
/// ascending date, then undated ones; ties kept in store order.
pub open spec fn is_route_result(voyages: Seq<Voyage>, origin: i32, destination: i32, r: Seq<Voyage>) -> bool {
    let m = route_voyages(voyages, origin, destination);
    exists|order: Seq<usize>|
        is_ranking(date_keys(m), m.len() as int, order) && r == order.map_values(
            |i: usize| m[i as int],
        )
}

/// Each side of a route is matched on its own: every voyage that resolving
/// `origin` to `destination` returns runs from `origin` to `destination`, so
/// it appears in the reverse route only if it also runs the other way.
pub proof fn lemma_route_results_link(
    voyages: Seq<Voyage>,
    origin: i32,
    destination: i32,
    r: Seq<Voyage>,
    reverse: Seq<Voyage>,
)
    requires
        is_route_result(voyages, origin, destination, r),
        is_route_result(voyages, destination, origin, reverse),
    ensures
        forall|a: int| 0 <= a < r.len() ==> links(#[trigger] r[a], origin, destination),
        forall|a: int, b: int|
            0 <= a < r.len() && 0 <= b < reverse.len() && r[a] == reverse[b] ==> links(
                r[a],
                destination,
                origin,
            ),
{
    broadcast use vstd::seq_lib::group_filter_ensures;
    let m = route_voyages(voyages, origin, destination);
    let order = choose|order: Seq<usize>|
        is_ranking(date_keys(m), m.len() as int, order) && r == order.map_values(
            |i: usize| m[i as int],
        );
    let w = route_voyages(voyages, destination, origin);
    let back = choose|order: Seq<usize>|
        is_ranking(date_keys(w), w.len() as int, order) && reverse == order.map_values(
            |i: usize| w[i as int],
        );
    assert forall|a: int| 0 <= a < r.len() implies links(#[trigger] r[a], origin, destination) by {
        assert(r[a] == m[order[a] as int]);
    }
    assert forall|a: int, b: int|
        0 <= a < r.len() && 0 <= b < reverse.len() && r[a] == reverse[b] implies links(
            r[a],
            destination,
            origin,
        ) by {
        assert(reverse[b] == w[back[b] as int]);
    }
}

/// Resolving the same route twice over the same store gives the same voyages
/// in the same order.
pub proof fn lemma_route_deterministic(
    voyages: Seq<Voyage>,
    origin: i32,
    destination: i32,
    r1: Seq<Voyage>,
    r2: Seq<Voyage>,
)
    requires
        is_route_result(voyages, origin, destination, r1),
        is_route_result(voyages, origin, destination, r2),
    ensures
        r1 == r2,
{
    let m = route_voyages(voyages, origin, destination);
    let o1 = choose|order: Seq<usize>|
        is_ranking(date_keys(m), m.len() as int, order) && r1 == order.map_values(
            |i: usize| m[i as int],
        );
    let o2 = choose|order: Seq<usize>|
        is_ranking(date_keys(m), m.len() as int, order) && r2 == order.map_values(
            |i: usize| m[i as int],
        );
    lemma_ranking_unique(date_keys(m), m.len() as int, o1, o2);
}

/// Whether `a` sorts before `b` as text.
pub fn text_less_exec(a: &Vec<char>, b: &Vec<char>) -> (r: bool)
    ensures
        r == text_less(a@, b@),
{
    let mut i: usize = 0;
    assert(a@.skip(0) == a@ && b@.skip(0) == b@);
    loop
        invariant
            i <= a@.len(),
            i <= b@.len(),
            text_less(a@, b@) == text_less(a@.skip(i as int), b@.skip(i as int)),
        decreases a@.len() - i,
    {
        assert(a@.skip(i as int).len() == a@.len() - i);
        if i == a.len() {
            return i < b.len();
        }
        if i == b.len() {
            return false;
        }
        assert(a@.skip(i as int)[0] == a@[i as int]);
        assert(b@.skip(i as int)[0] == b@[i as int]);
        if a[i] != b[i] {
            return (a[i] as u32) < (b[i] as u32);
        }
        assert(a@.skip(i as int).drop_first() == a@.skip(i + 1));
        assert(b@.skip(i as int).drop_first() == b@.skip(i + 1));
        i = i + 1;
    }
}

/// The voyages from `origin` to `destination`, each side matched at the
/// port, region or broad-region level. Voyages with an embarkation date come
/// first, in ascending order of that date; equal dates keep store order.
pub fn get_voyages(store: &Store, origin: &Place, destination: &Place) -> (r: Vec<Voyage>)
    ensures
        is_route_result(store.voyages@, origin.value, destination.value, r@),
{
    let ghost vs = store.voyages@;
    let mut m: Vec<Voyage> = Vec::new();
    let mut dates: Vec<Option<Vec<char>>> = Vec::new();
    let mut i: usize = 0;
    while i < store.voyages.len()
        invariant
            vs == store.voyages@,
            i <= vs.len(),
            m@ == route_voyages(vs.subrange(0, i as int), origin.value, destination.value),
            dates@.len() == m@.len(),
            forall|k: int|
                0 <= k < m@.len() ==> match #[trigger] dates@[k] {
                    Some(d) => m@[k].embark_date is Some && d@ == m@[k].embark_date->0@,
                    None => m@[k].embark_date is None,
                },
        decreases vs.len() - i,
    {
        let v = &store.voyages[i];
        let linked = side_matches_exec(v, NodeType::Origin, origin.value) && side_matches_exec(
            v,
            NodeType::Destination,
            destination.value,
        );
        proof {
            reveal(Seq::filter);
            assert(vs.subrange(0, i + 1).drop_last() == vs.subrange(0, i as int));
            assert(vs.subrange(0, i + 1).last() == *v);
        }
        if linked {
            let d = match &v.embark_date {
                Some(e) => Some(chars_of(e.as_str())),
                None => None,
            };
            m.push(v.duplicate());
            dates.push(d);
        }
        i = i + 1;
    }
    assert(vs.subrange(0, vs.len() as int) == vs);
    let n = m.len();
    let mut keys: Vec<u128> = Vec::new();
    let mut k: usize = 0;
    while k < n
        invariant
            n == m@.len(),
            k <= n,
            dates@.len() == n,
            forall|k: int|
                0 <= k < m@.len() ==> match #[trigger] dates@[k] {
                    Some(d) => m@[k].embark_date is Some && d@ == m@[k].embark_date->0@,
                    None => m@[k].embark_date is None,
                },
            keys@ == date_keys(m@).subrange(0, k as int),
        decreases n - k,
    {
        let key: u128 = match &dates[k] {
            None => n as u128,
            Some(d) => {
                let mut count: u128 = 0;
                let mut j: usize = 0;
                while j < n
                    invariant
                        n == m@.len(),
                        j <= n,
                        dates@.len() == n,
                        forall|k: int|
                            0 <= k < m@.len() ==> match #[trigger] dates@[k] {
                                Some(d) => m@[k].embark_date is Some && d@ == m@[k].embark_date->0@,
                                None => m@[k].embark_date is None,
                            },
                        count == earlier_dates(m@.subrange(0, j as int), d@),
                        count <= j,
                    decreases n - j,
                {
                    let earlier = match &dates[j] {
                        Some(e) => text_less_exec(e, d),
                        None => false,
                    };
                    proof {
                        assert(m@.subrange(0, j + 1).drop_last() == m@.subrange(0, j as int));
                        assert(m@.subrange(0, j + 1).last() == m@[j as int]);
                    }
                    if earlier {
                        count = count + 1;
                    }
                    j = j + 1;
                }
                assert(m@.subrange(0, n as int) == m@);
                count
            },
        };
        keys.push(key);
        assert(keys@ == date_keys(m@).subrange(0, k + 1));
        k = k + 1;
    }
    assert(keys@ == date_keys(m@));
    let order = rank_by_key(&keys, n);
    let mut r: Vec<Voyage> = Vec::new();
    let mut a: usize = 0;
    while a < order.len()
        invariant
            a <= order@.len(),
            is_ranking(keys@, n as int, order@),
            keys@.len() == m@.len(),
            r@ == order@.subrange(0, a as int).map_values(|i: usize| m@[i as int]),
        decreases order@.len() - a,
    {
        r.push(m[order[a]].duplicate());
        a = a + 1;
        assert(r@ == order@.subrange(0, a as int).map_values(|i: usize| m@[i as int]));
    }
    assert(order@.subrange(0, order@.len() as int) == order@);
    assert(is_ranking(date_keys(m@), m@.len() as int, order@) && r@ == order@.map_values(
        |i: usize| m@[i as int],
    ));
    r
}

} // verus!
