use saxaar::fuzzy::Port;
use saxaar::model::{NodeType, Place, PlaceType, Voyage};
use saxaar::table::{
    format_number, format_option, port_list, suggestion_lines, voyage_table, SearchInputProps,
    VoyageTableProps,
};

#[test]
fn numbers_group_by_thousands() {
    assert_eq!(format_number(Some(1234567)), "1,234,567");
    assert_eq!(format_number(Some(1000)), "1,000");
    assert_eq!(format_number(Some(999)), "999");
    assert_eq!(format_number(Some(0)), "0");
    assert_eq!(format_number(Some(-1234)), "-1,234");
    assert_eq!(format_number(Some(-100)), "-100");
    assert_eq!(format_number(Some(-123456)), "-123,456");
    assert_eq!(format_number(Some(i32::MIN)), "-2,147,483,648");
    assert_eq!(format_number(Some(i32::MAX)), "2,147,483,647");
    assert_eq!(format_number(None), "Unknown");
}

#[test]
fn options_show_their_value() {
    assert_eq!(format_option(Some(60206)), "60206");
    assert_eq!(format_option(Some(-5)), "-5");
    assert_eq!(format_option(None), "Unknown");
}

#[test]
fn voyage_rows_hold_eight_cells() {
    let props = VoyageTableProps {
        voyages: vec![Voyage {
            id: 1,
            origin_port: Some(60206),
            origin_region: None,
            origin_broad_region: Some(60000),
            destination_port: Some(21302),
            destination_region: Some(21300),
            destination_broad_region: Some(20000),
            embark_date: Some("1805-03-01".to_string()),
            disembark_date: None,
            slaves_embarked: Some(5000),
            slaves_disembarked: None,
        }],
    };
    let rows = voyage_table(&props);
    assert_eq!(
        rows,
        vec![
            vec![
                "Origin Port".to_string(),
                "Origin Region".to_string(),
                "Destination Port".to_string(),
                "Destination Region".to_string(),
                "Embarkation Date".to_string(),
                "Disembarkation Date".to_string(),
                "Slaves Embarked".to_string(),
                "Slaves Disembarked".to_string(),
            ],
            vec![
            "60206".to_string(),
            "Unknown".to_string(),
            "21302".to_string(),
            "21300".to_string(),
            "1805-03-01".to_string(),
            "Unknown".to_string(),
            "5,000".to_string(),
            "Unknown".to_string(),
            ],
        ]
    );
    let empty = voyage_table(&VoyageTableProps { voyages: vec![] });
    assert_eq!(empty.len(), 1);
    assert_eq!(empty[0].len(), 8);
}

#[test]
fn port_list_shows_names_and_regions() {
    let ports = vec![Port {
        broad_region: "Europe".to_string(),
        specific_region: "England".to_string(),
        name: "London".to_string(),
        value: 10433,
    }];
    assert_eq!(port_list(&ports), vec![("London".to_string(), "England".to_string())]);
}

#[test]
fn search_box_labels_and_suggestions() {
    let props = SearchInputProps {
        node_type: NodeType::Destination,
        value: "char".to_string(),
        suggestions: vec![],
        is_set: false,
    };
    assert_eq!(props.label(), "Destination Place");
    let place = Place {
        id: 6,
        place_type: PlaceType::Port,
        value: 21302,
        name: "Charleston".to_string(),
        region_value: Some(21300),
        region_name: Some("Carolinas".to_string()),
        broad_region_value: Some(20000),
        broad_region_name: Some("Mainland North America".to_string()),
    };
    assert_eq!(
        suggestion_lines(&place),
        vec!["Charleston", "Region: Carolinas", "Broad Region: Mainland North America"]
    );
    let region = Place { region_value: None, region_name: None, ..place };
    assert_eq!(suggestion_lines(&region), vec!["Charleston", "Broad Region: Mainland North America"]);
}
