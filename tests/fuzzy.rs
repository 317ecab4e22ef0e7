use saxaar::fuzzy::{
    dice_exec, rank_port_matches, rank_ports_by_distance, search_ports, search_ports_with_region,
    Port, PortMatch, Ratio,
};

fn port(broad: &str, region: &str, name: &str, value: i32) -> Port {
    Port {
        broad_region: broad.to_string(),
        specific_region: region.to_string(),
        name: name.to_string(),
        value,
    }
}

fn ports() -> Vec<Port> {
    vec![
        port("Europe", "England", "Bristol", 10432),
        port("Europe", "England", "London", 10433),
        port("Africa", "Gold Coast", "Cape Coast Castle", 60531),
        port("Caribbean", "Jamaica", "Kingston", 35204),
        port("Mainland North America", "Carolinas", "Charleston", 21302),
        port("Caribbean", "Barbados", "Bridgetown", 34201),
        port("Europe", "France", "Nantes", 10301),
    ]
}

fn chars(s: &str) -> Vec<char> {
    s.chars().collect()
}

fn admitted(query: &str, p: &Port) -> bool {
    let q = query.to_lowercase();
    strsim::damerau_levenshtein(&q, &p.name.to_lowercase()) <= 5
        || strsim::damerau_levenshtein(&q, &p.specific_region.to_lowercase()) <= 3
        || strsim::damerau_levenshtein(&q, &p.broad_region.to_lowercase()) <= 3
}

fn plain(name_distance: usize, region_distance: usize, broad_distance: usize) -> PortMatch {
    PortMatch {
        name_distance,
        region_distance,
        broad_distance,
        name_similarity: Ratio { num: 0, den: 1 },
        region_similarity: Ratio { num: 0, den: 1 },
        broad_similarity: Ratio { num: 0, den: 1 },
        name_starts: false,
        name_contains: false,
        region_starts: false,
        broad_starts: false,
    }
}

#[test]
fn weighted_search_prefers_prefix_hits_ignoring_case() {
    let found = search_ports_with_region(&ports(), "LON");
    assert_eq!(found[0].name, "London");
    assert!(found.len() <= 5);
    for p in &found {
        assert!(admitted("LON", p));
    }
}

#[test]
fn weighted_search_results_are_close_enough() {
    for query in ["br", "caribean", "xyzzy", "", "charles", "europe"] {
        let found = search_ports_with_region(&ports(), query);
        assert!(found.len() <= 5);
        for p in &found {
            assert!(admitted(query, p), "{} for {}", p.name, query);
        }
    }
    let found = search_ports_with_region(&ports(), "charles");
    assert_eq!(found[0].name, "Charleston");
    // Upper case is folded before measuring: unfolded, "CHARLES" would lie
    // 6 edits from "charleston" and miss the threshold.
    let found = search_ports_with_region(&ports(), "CHARLES");
    assert_eq!(found[0].name, "Charleston");
}

#[test]
fn weighted_search_matches_regions() {
    // "Caribbean" is within 3 of the broad region of two ports.
    let found = search_ports_with_region(&ports(), "caribean");
    let names: Vec<&str> = found.iter().map(|p| p.name.as_str()).collect();
    assert!(names.contains(&"Kingston"));
    assert!(names.contains(&"Bridgetown"));
}

#[test]
fn ranking_by_score_is_exact() {
    let ps = vec![
        port("A", "A", "far", 1),
        port("B", "B", "near", 2),
        port("C", "C", "nearer", 3),
        port("D", "D", "prefix", 4),
    ];
    let mut prefix = plain(5, 9, 9);
    prefix.name_starts = true;
    let ms = vec![plain(9, 9, 9), plain(2, 9, 9), plain(1, 9, 9), prefix];
    let found = rank_port_matches(&ps, &ms);
    let names: Vec<&str> = found.iter().map(|p| p.name.as_str()).collect();
    assert_eq!(names, vec!["prefix", "nearer", "near"]);
}

#[test]
fn ranking_uses_similarity_and_keeps_ties_in_order() {
    let ps = vec![port("A", "A", "first", 1), port("B", "B", "second", 2), port("C", "C", "third", 3)];
    let mut similar = plain(2, 9, 9);
    similar.name_similarity = Ratio { num: 1, den: 1 };
    let ms = vec![plain(2, 9, 9), plain(2, 9, 9), similar];
    let found = rank_port_matches(&ps, &ms);
    let names: Vec<&str> = found.iter().map(|p| p.name.as_str()).collect();
    assert_eq!(names, vec!["third", "first", "second"]);
}

#[test]
fn ranking_keeps_five() {
    let ps: Vec<Port> = (0..8).map(|i| port("A", "A", &format!("p{}", i), i)).collect();
    let ms: Vec<PortMatch> = (0..8).map(|i| plain(8 - i as usize, 2, 9)).collect();
    let found = rank_port_matches(&ps, &ms);
    let values: Vec<i32> = found.iter().map(|p| p.value).collect();
    assert_eq!(values, vec![7, 6, 5, 4, 3]);
}

#[test]
fn dice_coefficient_of_bigrams() {
    assert_eq!(dice_exec(&chars("feris"), &chars("ferris")), Ratio { num: 8, den: 9 });
    assert_eq!(dice_exec(&chars(""), &chars("")), Ratio { num: 1, den: 1 });
    assert_eq!(dice_exec(&chars(""), &chars("a")), Ratio { num: 0, den: 1 });
    assert_eq!(dice_exec(&chars("french"), &chars("quebec")), Ratio { num: 0, den: 10 });
    assert_eq!(dice_exec(&chars("aaaa"), &chars("aa")), Ratio { num: 2, den: 4 });
}

#[test]
fn simple_search_ranks_by_name_distance() {
    let found = search_ports(&ports(), "BRISTO");
    assert_eq!(found.len(), 4);
    assert_eq!(found[0].name, "Bristol");
    let found = search_ports(&ports()[..2].to_vec(), "zzzzzzzzzz");
    assert_eq!(found.len(), 2);
}

#[test]
fn simple_ranking_is_exact() {
    let ps: Vec<Port> = (0..6).map(|i| port("A", "A", &format!("p{}", i), i)).collect();
    let found = rank_ports_by_distance(&ps, &vec![3, 1, 4, 1, 5, 0]);
    let values: Vec<i32> = found.iter().map(|p| p.value).collect();
    assert_eq!(values, vec![5, 1, 3, 0]);
}

#[test]
fn repeated_fuzzy_searches_agree() {
    assert_eq!(search_ports_with_region(&ports(), "ca"), search_ports_with_region(&ports(), "ca"));
    assert_eq!(search_ports(&ports(), "ca"), search_ports(&ports(), "ca"));
}
