use saxaar::model::{NodeType, Place, PlaceType, SearchState};
use saxaar::session::{SearchSession, SessionAction};

fn port(value: i32, name: &str) -> Place {
    Place {
        id: value as i64,
        place_type: PlaceType::Port,
        value,
        name: name.to_string(),
        region_value: Some(value / 100 * 100),
        region_name: Some("region".to_string()),
        broad_region_value: Some(value / 10000 * 10000),
        broad_region_name: Some("broad region".to_string()),
    }
}

#[test]
fn typing_searches_with_the_other_endpoint() {
    let mut session = SearchSession::new();
    match session.on_search("dela".to_string(), NodeType::Origin) {
        SessionAction::Search { query, role, other } => {
            assert_eq!(query, "dela");
            assert_eq!(role, NodeType::Origin);
            assert!(other.is_none());
        }
        _ => panic!("expected a search"),
    }
    let delagoa = port(60206, "Delagoa");
    assert!(matches!(
        session.on_select(delagoa.clone(), NodeType::Origin),
        SessionAction::ClearSuggestions(NodeType::Origin)
    ));
    assert_eq!(session.origin.state, SearchState::Selected);
    assert_eq!(session.origin.input_value, "Delagoa");
    match session.on_search("char".to_string(), NodeType::Destination) {
        SessionAction::Search { other, role, .. } => {
            assert_eq!(role, NodeType::Destination);
            assert_eq!(other, Some(delagoa));
        }
        _ => panic!("expected a search"),
    }
}

#[test]
fn choosing_both_endpoints_fetches_voyages() {
    let mut session = SearchSession::new();
    session.on_select(port(21302, "Charleston"), NodeType::Destination);
    match session.on_select(port(60206, "Delagoa"), NodeType::Origin) {
        SessionAction::FetchVoyages { origin, destination } => {
            assert_eq!(origin.name, "Delagoa");
            assert_eq!(destination.name, "Charleston");
        }
        _ => panic!("expected a fetch"),
    }
}

#[test]
fn empty_query_clears_and_unsets() {
    let mut session = SearchSession::new();
    session.on_select(port(60206, "Delagoa"), NodeType::Origin);
    assert!(matches!(
        session.on_search(String::new(), NodeType::Origin),
        SessionAction::ClearSuggestions(NodeType::Origin)
    ));
    assert_eq!(session.origin.state, SearchState::NotSet);
    assert!(session.origin.selected_place.is_none());
    session.on_select(port(60206, "Delagoa"), NodeType::Origin);
    session.reset();
    assert!(session.origin.selected_place.is_none());
    assert_eq!(session.destination.input_value, "");
}
