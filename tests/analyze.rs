use saxaar::analyze::{analyze_route, analyze_temporal_patterns, parse_date};
use saxaar::model::{Place, PlaceType, Store, Voyage};

fn port(value: i32, name: &str) -> Place {
    Place {
        id: value as i64,
        place_type: PlaceType::Port,
        value,
        name: name.to_string(),
        region_value: Some(value / 100 * 100),
        region_name: Some(format!("{} region", name)),
        broad_region_value: Some(value / 10000 * 10000),
        broad_region_name: Some(format!("{} broad region", name)),
    }
}

fn voyage(
    id: i64,
    origin: i32,
    destination: i32,
    embark: Option<&str>,
    disembark: Option<&str>,
    embarked: Option<i32>,
    disembarked: Option<i32>,
) -> Voyage {
    Voyage {
        id,
        origin_port: Some(origin),
        origin_region: Some(origin / 100 * 100),
        origin_broad_region: Some(origin / 10000 * 10000),
        destination_port: Some(destination),
        destination_region: Some(destination / 100 * 100),
        destination_broad_region: Some(destination / 10000 * 10000),
        embark_date: embark.map(|d| d.to_string()),
        disembark_date: disembark.map(|d| d.to_string()),
        slaves_embarked: embarked,
        slaves_disembarked: disembarked,
    }
}

fn historical() -> Store {
    Store {
        places: vec![port(60206, "Delagoa"), port(21302, "Charleston"), port(33799, "Montserrat")],
        voyages: vec![
            voyage(1, 60206, 21302, Some("1750-01-20"), Some("1750-03-21"), Some(5000), Some(4000)),
            voyage(2, 60206, 21302, Some("1760-05-02"), Some("1760-07-01"), None, Some(300)),
            voyage(3, 60206, 33799, Some("1760-08-10"), None, Some(200), Some(180)),
            voyage(4, 60206, 33799, Some("1805-03-01 09:30"), None, Some(100), None),
            voyage(5, 60206, 33799, None, None, Some(50), Some(40)),
            voyage(6, 60206, 33799, Some("about 1790"), None, Some(10), Some(9)),
        ],
    }
}

#[test]
fn test_temporal_pattern_edge_cases() {
    let connection = historical();
    let patterns = analyze_temporal_patterns(&connection, false, Some(2500), Some(2600));
    assert!(patterns.is_empty());
    let patterns = analyze_temporal_patterns(&connection, false, Some(1800), Some(1700));
    assert!(patterns.is_empty());
}

#[test]
fn temporal_buckets_by_year() {
    let store = historical();
    let patterns = analyze_temporal_patterns(&store, false, None, None);
    let rows: Vec<(i32, Option<i32>, u64, i128, i128)> = patterns
        .iter()
        .map(|p| (p.year, p.month, p.voyage_count, p.total_embarked, p.total_disembarked))
        .collect();
    assert_eq!(
        rows,
        vec![
            (1750, None, 1, 5000, 4000),
            (1760, None, 2, 200, 480),
            (1805, None, 1, 100, 0),
        ]
    );
}

#[test]
fn temporal_buckets_by_month_within_range() {
    let store = historical();
    let patterns = analyze_temporal_patterns(&store, true, Some(1755), Some(1800));
    let rows: Vec<(i32, Option<i32>, u64)> =
        patterns.iter().map(|p| (p.year, p.month, p.voyage_count)).collect();
    assert_eq!(rows, vec![(1760, Some(5), 1), (1760, Some(8), 1)]);
    let patterns = analyze_temporal_patterns(&store, false, Some(1760), None);
    let years: Vec<i32> = patterns.iter().map(|p| p.year).collect();
    assert_eq!(years, vec![1760, 1805]);
    let patterns = analyze_temporal_patterns(&store, false, None, Some(1760));
    let years: Vec<i32> = patterns.iter().map(|p| p.year).collect();
    assert_eq!(years, vec![1750, 1760]);
}

#[test]
fn route_analysis_aggregates_recorded_counts() {
    let store = historical();
    let delagoa = port(60206, "Delagoa");
    let charleston = port(21302, "Charleston");
    let analysis = analyze_route(&store, &delagoa, &charleston);
    // The voyage with no embarked count adds to the count, not to the sum.
    assert_eq!(analysis.total_voyages, 2);
    assert_eq!(analysis.total_embarked, 5000);
    assert_eq!(analysis.total_disembarked, 4300);
    assert_eq!(analysis.mortality_rate(), (700, 5000));
    // 1750-01-20 to 1750-03-21 is 60 days, as is 1760-05-02 to 1760-07-01.
    assert_eq!(analysis.timed_voyages, 2);
    assert_eq!(analysis.total_journey_days, 120);
    assert_eq!(analysis.origin_place, delagoa);
    assert_eq!(analysis.destination_place, charleston);
}

#[test]
fn route_analysis_single_voyage_mortality() {
    let store = Store {
        places: vec![],
        voyages: vec![voyage(1, 60206, 21302, None, None, Some(5000), Some(4000))],
    };
    let analysis = analyze_route(&store, &port(60206, "Delagoa"), &port(21302, "Charleston"));
    assert_eq!(analysis.total_voyages, 1);
    assert_eq!(analysis.mortality_rate(), (1000, 5000));
    assert_eq!(analysis.timed_voyages, 0);
}

#[test]
fn route_analysis_without_voyages_is_zero() {
    let store = historical();
    let analysis = analyze_route(&store, &port(21302, "Charleston"), &port(60206, "Delagoa"));
    assert_eq!(analysis.total_voyages, 0);
    assert_eq!(analysis.total_embarked, 0);
    assert_eq!(analysis.total_disembarked, 0);
    assert_eq!(analysis.mortality_rate(), (0, 1));
}

#[test]
fn dates_read_as_iso() {
    let chars = |s: &str| s.chars().collect::<Vec<char>>();
    assert_eq!(parse_date(&chars("1805-03-01")), Some((1805, 3, 1)));
    assert_eq!(parse_date(&chars("1805-03-01T10:00")), Some((1805, 3, 1)));
    assert_eq!(parse_date(&chars("1805-3-1")), None);
    assert_eq!(parse_date(&chars("1805-13-01")), None);
    assert_eq!(parse_date(&chars("1805-03-01x")), None);
    assert_eq!(parse_date(&chars("")), None);
}
