use saxaar::model::{NodeType, Place, PlaceType, Store, Voyage};
use saxaar::search::{get_voyages, search_places};

fn place(
    id: i64,
    place_type: PlaceType,
    value: i32,
    name: &str,
    region: Option<(i32, &str)>,
    broad: Option<(i32, &str)>,
) -> Place {
    Place {
        id,
        place_type,
        value,
        name: name.to_string(),
        region_value: region.map(|r| r.0),
        region_name: region.map(|r| r.1.to_string()),
        broad_region_value: broad.map(|b| b.0),
        broad_region_name: broad.map(|b| b.1.to_string()),
    }
}

fn voyage(
    id: i64,
    origin: (Option<i32>, Option<i32>, Option<i32>),
    destination: (Option<i32>, Option<i32>, Option<i32>),
    embark_date: Option<&str>,
) -> Voyage {
    Voyage {
        id,
        origin_port: origin.0,
        origin_region: origin.1,
        origin_broad_region: origin.2,
        destination_port: destination.0,
        destination_region: destination.1,
        destination_broad_region: destination.2,
        embark_date: embark_date.map(|d| d.to_string()),
        disembark_date: None,
        slaves_embarked: None,
        slaves_disembarked: None,
    }
}

fn london() -> Place {
    place(
        1,
        PlaceType::Port,
        10433,
        "London",
        Some((10400, "England")),
        Some((10000, "Europe")),
    )
}

fn luanda() -> Place {
    place(
        2,
        PlaceType::Port,
        60734,
        "Luanda",
        Some((60700, "West Central Africa and St. Helena")),
        Some((60000, "Africa")),
    )
}

fn gazetteer() -> Store {
    let places = vec![
        place(10, PlaceType::BroadRegion, 10000, "Europe", None, None),
        place(11, PlaceType::BroadRegion, 20000, "Mainland North America", None, None),
        place(12, PlaceType::BroadRegion, 30000, "Caribbean", None, None),
        place(13, PlaceType::BroadRegion, 60000, "Africa", None, None),
        place(20, PlaceType::SpecificRegion, 10400, "England", None, Some((10000, "Europe"))),
        place(21, PlaceType::SpecificRegion, 21300, "Carolinas", None, Some((20000, "Mainland North America"))),
        place(22, PlaceType::SpecificRegion, 33700, "Montserrat region", None, Some((30000, "Caribbean"))),
        place(23, PlaceType::SpecificRegion, 60200, "Southeast Africa and Indian Ocean islands", None, Some((60000, "Africa"))),
        london(),
        place(3, PlaceType::Port, 10404, "London, port unspecified", Some((10400, "England")), Some((10000, "Europe"))),
        place(4, PlaceType::Port, 10401, "Londonderry", Some((10400, "England")), Some((10000, "Europe"))),
        luanda(),
        place(5, PlaceType::Port, 60206, "Delagoa", Some((60200, "Southeast Africa and Indian Ocean islands")), Some((60000, "Africa"))),
        place(6, PlaceType::Port, 21302, "Charleston", Some((21300, "Carolinas")), Some((20000, "Mainland North America"))),
        place(7, PlaceType::Port, 33799, "Montserrat", Some((33700, "Montserrat region")), Some((30000, "Caribbean"))),
        place(8, PlaceType::Port, 21305, "Charlestown", Some((21300, "Carolinas")), Some((20000, "Mainland North America"))),
        place(9, PlaceType::Port, 10405, "Newport", Some((10400, "England")), Some((10000, "Europe"))),
    ];
    let voyages = vec![
        // Delagoa to Charleston, at port level on both sides.
        voyage(100, (Some(60206), Some(60200), Some(60000)), (Some(21302), Some(21300), Some(20000)), Some("1805-03-01")),
        // Delagoa to Montserrat.
        voyage(101, (Some(60206), Some(60200), Some(60000)), (Some(33799), Some(33700), Some(30000)), None),
        // London to Luanda, twice, one of them undated.
        voyage(102, (Some(10433), Some(10400), Some(10000)), (Some(60734), Some(60700), Some(60000)), None),
        voyage(103, (Some(10433), Some(10400), Some(10000)), (Some(60734), Some(60700), Some(60000)), Some("1760-05-02")),
        voyage(104, (Some(10433), Some(10400), Some(10000)), (Some(60734), Some(60700), Some(60000)), Some("1750-01-20")),
        // London to Newport.
        voyage(105, (Some(10433), Some(10400), Some(10000)), (Some(10405), Some(10400), Some(10000)), None),
        // Luanda to the Carolinas, the destination known only by its region.
        voyage(106, (Some(60734), Some(60700), Some(60000)), (None, Some(21300), Some(20000)), Some("1790-07-04")),
    ];
    Store { places, voyages }
}

fn find_place_by_name(places: &[Place], name: &str) -> Option<Place> {
    places.iter().find(|p| p.name == name).cloned()
}

#[test]
fn test_search_places_without_constraint() {
    let connection = gazetteer();
    let results = search_places(&connection, "London", &NodeType::Origin, None);
    assert!(!results.is_empty());
}

#[test]
fn test_error_handling() {
    let connection = gazetteer();
    // The empty search holds every place, capped at ten.
    let results = search_places(&connection, "", &NodeType::Origin, None);
    assert_eq!(results.len(), 10);
}

#[test]
fn test_get_voyages() {
    let connection = gazetteer();
    let results = get_voyages(&connection, &london(), &luanda());
    let ids: Vec<i64> = results.iter().map(|v| v.id).collect();
    assert_eq!(ids, vec![104, 103, 102]);
}

#[test]
fn test_search_places_with_constraint() {
    let connection = gazetteer();
    let london = search_places(&connection, "London", &NodeType::Origin, None)
        .first()
        .cloned();
    if let Some(london) = london {
        let results = search_places(&connection, "port", &NodeType::Destination, Some(&london));
        let names: Vec<&str> = results.iter().map(|p| p.name.as_str()).collect();
        assert_eq!(names, vec!["Newport"]);
    }
}

#[test]
fn test_place_search_ranking() {
    let connection = gazetteer();
    let results = search_places(&connection, "London", &NodeType::Origin, None);
    if !results.is_empty() {
        assert!(results[0].name.contains("London"));
    }
    // The exact name comes first, then shorter names.
    let names: Vec<&str> = results.iter().map(|p| p.name.as_str()).collect();
    assert_eq!(names, vec!["London", "Londonderry", "London, port unspecified"]);
}

#[test]
fn test_delagoa_to_charleston() {
    let db = gazetteer();
    let all_results = search_places(&db, "delagoa", &NodeType::Origin, None);
    let delagoa = find_place_by_name(&all_results, "Delagoa")
        .expect("Should find Delagoa in initial search");
    let results = search_places(&db, "char", &NodeType::Destination, Some(&delagoa));
    assert!(
        results.iter().any(|p| p.name == "Charleston"),
        "Charleston should be a valid destination from Delagoa\nFound places: {:#?}",
        results
    );
}

#[test]
fn test_delagoa_to_montserrat() {
    let db = gazetteer();
    let all_results = search_places(&db, "delagoa", &NodeType::Origin, None);
    let delagoa = find_place_by_name(&all_results, "Delagoa")
        .expect("Should find Delagoa in initial search");
    let results = search_places(&db, "mont", &NodeType::Destination, Some(&delagoa));
    assert!(
        results.iter().any(|p| p.name == "Montserrat"),
        "Montserrat should be a valid destination from Delagoa\nFound places: {:#?}",
        results
    );
}

#[test]
fn test_charleston_to_delagoa() {
    let db = gazetteer();
    let all_results = search_places(&db, "charleston", &NodeType::Destination, None);
    let charleston = find_place_by_name(&all_results, "Charleston")
        .expect("Should find Charleston in initial search");
    let results = search_places(&db, "dela", &NodeType::Origin, Some(&charleston));
    assert!(
        results.iter().any(|p| p.name == "Delagoa"),
        "Delagoa should be a valid origin for Charleston\nFound places: {:#?}",
        results
    );
}

#[test]
fn test_montserrat_to_delagoa() {
    let db = gazetteer();
    let all_results = search_places(&db, "montserrat", &NodeType::Destination, None);
    let montserrat = find_place_by_name(&all_results, "Montserrat")
        .expect("Should find Montserrat in initial search");
    let results = search_places(&db, "dela", &NodeType::Origin, Some(&montserrat));
    assert!(
        results.iter().any(|p| p.name == "Delagoa"),
        "Delagoa should be a valid origin for Montserrat\nFound places: {:#?}",
        results
    );
}

#[test]
fn search_results_hold_query_ignoring_case() {
    let db = gazetteer();
    let results = search_places(&db, "LoN", &NodeType::Origin, None);
    assert!(results.len() <= 10);
    assert!(!results.is_empty());
    for p in &results {
        assert!(p.name.to_lowercase().contains("lon"));
    }
}

#[test]
fn search_exact_name_ranks_before_shorter_names() {
    let db = gazetteer();
    // "Charlestown" is longer than "Charleston" but equals the query.
    let results = search_places(&db, "charlestown", &NodeType::Destination, None);
    assert_eq!(results[0].name, "Charlestown");
    let results = search_places(&db, "charl", &NodeType::Destination, None);
    let names: Vec<&str> = results.iter().map(|p| p.name.as_str()).collect();
    assert_eq!(names, vec!["Charleston", "Charlestown"]);
}

#[test]
fn search_constraint_excludes_unconnected_places() {
    let db = gazetteer();
    let delagoa = find_place_by_name(&db.places, "Delagoa").unwrap();
    // Every level of the two voyages from Delagoa counts; Charlestown, in
    // Charleston's region but named by no voyage, does not.
    let results = search_places(&db, "", &NodeType::Destination, Some(&delagoa));
    let names: Vec<&str> = results.iter().map(|p| p.name.as_str()).collect();
    assert_eq!(
        names,
        vec!["Caribbean", "Carolinas", "Charleston", "Montserrat", "Montserrat region", "Mainland North America"]
    );
}

#[test]
fn repeated_searches_agree() {
    let db = gazetteer();
    let first = search_places(&db, "on", &NodeType::Origin, None);
    let second = search_places(&db, "on", &NodeType::Origin, None);
    assert_eq!(first, second);
    let a = get_voyages(&db, &london(), &luanda());
    let b = get_voyages(&db, &london(), &luanda());
    assert_eq!(a, b);
}

#[test]
fn route_is_not_symmetric() {
    let db = gazetteer();
    let forward = get_voyages(&db, &london(), &luanda());
    let backward = get_voyages(&db, &luanda(), &london());
    assert_eq!(forward.len(), 3);
    assert!(backward.is_empty());
}

#[test]
fn route_matches_each_side_at_any_level() {
    let db = gazetteer();
    let delagoa = find_place_by_name(&db.places, "Delagoa").unwrap();
    let caribbean = find_place_by_name(&db.places, "Caribbean").unwrap();
    let africa = find_place_by_name(&db.places, "Africa").unwrap();
    let charleston = find_place_by_name(&db.places, "Charleston").unwrap();
    let carolinas = find_place_by_name(&db.places, "Carolinas").unwrap();
    let ids: Vec<i64> = get_voyages(&db, &delagoa, &caribbean).iter().map(|v| v.id).collect();
    assert_eq!(ids, vec![101]);
    let ids: Vec<i64> = get_voyages(&db, &africa, &caribbean).iter().map(|v| v.id).collect();
    assert_eq!(ids, vec![101]);
    // Voyage 106 names its destination only by its region.
    assert!(get_voyages(&db, &luanda(), &charleston).is_empty());
    let ids: Vec<i64> = get_voyages(&db, &luanda(), &carolinas).iter().map(|v| v.id).collect();
    assert_eq!(ids, vec![106]);
}

#[test]
fn search_query_is_trimmed() {
    let only_london = Store { places: vec![london()], voyages: vec![] };
    let results = search_places(&only_london, "lon ", &NodeType::Origin, None);
    assert_eq!(results.len(), 1);
    let results = search_places(&only_london, "\t London\n", &NodeType::Origin, None);
    assert_eq!(results[0].name, "London");
    // White space alone holds everywhere, as the empty query does.
    let db = gazetteer();
    assert_eq!(search_places(&db, "   ", &NodeType::Origin, None).len(), 10);
    // Inner white space stays part of the query.
    let results = search_places(&db, " london, port ", &NodeType::Origin, None);
    let names: Vec<&str> = results.iter().map(|p| p.name.as_str()).collect();
    assert_eq!(names, vec!["London, port unspecified"]);
}
