use saxaar::model::{DatabaseError, Place, PlaceRow, PlaceType, Port, PortConversionError};

fn row(place_type: &str) -> PlaceRow {
    PlaceRow {
        id: 7,
        place_type: place_type.to_string(),
        value: 60206,
        name: "Delagoa".to_string(),
        region_value: Some(60200),
        region_name: Some("Southeast Africa".to_string()),
        broad_region_value: Some(60000),
        broad_region_name: Some("Africa".to_string()),
    }
}

fn delagoa_port() -> Port {
    Port {
        broad_region_value: 60000,
        broad_region: "Africa".to_string(),
        specific_region_value: 60200,
        specific_region: "Southeast Africa".to_string(),
        value: 60206,
        name: "Delagoa".to_string(),
    }
}

#[test]
fn test_place_type_conversion() {
    assert_eq!(PlaceType::Port, PlaceType::Port);
    assert!(PlaceType::from_str("Port").is_ok());
    assert!(PlaceType::from_str("SpecificRegion").is_ok());
    assert!(PlaceType::from_str("BroadRegion").is_ok());
}

#[test]
fn place_type_parse_is_exact() {
    assert_eq!(PlaceType::from_str("SpecificRegion").unwrap(), PlaceType::SpecificRegion);
    assert_eq!(PlaceType::from_str("BroadRegion").unwrap(), PlaceType::BroadRegion);
    match PlaceType::from_str("port") {
        Err(DatabaseError::InvalidPlaceType(s)) => assert_eq!(s, "port"),
        other => panic!("unexpected {:?}", other),
    }
    assert!(PlaceType::from_str("").is_err());
}

#[test]
fn rows_read_into_places() {
    let place = Place::from_row(row("Port")).unwrap();
    assert_eq!(place.place_type, PlaceType::Port);
    assert_eq!(place.id, 7);
    assert_eq!(place.name, "Delagoa");
    assert_eq!(place.region_name.as_deref(), Some("Southeast Africa"));
    match Place::from_row(row("Harbour")) {
        Err(DatabaseError::InvalidPlaceType(s)) => assert_eq!(s, "Harbour"),
        other => panic!("unexpected {:?}", other),
    }
}

#[test]
fn ports_convert_to_places_and_back() {
    let place: Place = delagoa_port().into();
    assert_eq!(place.id, 0);
    assert_eq!(place.place_type, PlaceType::Port);
    assert_eq!(place.value, 60206);
    assert_eq!(place.region_value, Some(60200));
    assert_eq!(place.broad_region_name.as_deref(), Some("Africa"));
    let port = Port::try_from(place).unwrap();
    assert_eq!(port, delagoa_port());
}

#[test]
fn non_ports_do_not_convert() {
    let mut place: Place = delagoa_port().into();
    place.place_type = PlaceType::SpecificRegion;
    match Port::try_from(place.clone()) {
        Err(PortConversionError::InvalidPlaceType(t)) => assert_eq!(t, PlaceType::SpecificRegion),
        other => panic!("unexpected {:?}", other),
    }
    place.place_type = PlaceType::Port;
    let missing = |p: Place| match Port::try_from(p) {
        Err(PortConversionError::MissingField(f)) => f,
        other => panic!("unexpected {:?}", other),
    };
    let mut p = place.clone();
    p.broad_region_value = None;
    assert_eq!(missing(p), "broad_region_value");
    let mut p = place.clone();
    p.broad_region_name = None;
    assert_eq!(missing(p), "broad_region");
    let mut p = place.clone();
    p.region_value = None;
    assert_eq!(missing(p), "specific_region_value");
    let mut p = place;
    p.region_name = None;
    assert_eq!(missing(p), "specific_region");
}

#[test]
fn database_errors_carry_their_message() {
    match DatabaseError::from_string("no table") {
        DatabaseError::InitializationError(s) => assert_eq!(s, "no table"),
        other => panic!("unexpected {:?}", other),
    }
    match DatabaseError::search_error("bad query") {
        DatabaseError::SearchError(s) => assert_eq!(s, "bad query"),
        other => panic!("unexpected {:?}", other),
    }
    match DatabaseError::query_error("locked") {
        DatabaseError::QueryError(s) => assert_eq!(s, "locked"),
        other => panic!("unexpected {:?}", other),
    }
}
