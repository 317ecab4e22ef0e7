//! The gazetteer's data: places in a port / region / broad-region hierarchy,
//! voyages between them, and the errors of reading them.
use vstd::prelude::*;
use crate::text::spells;

verus! {

/// The level of a place in the hierarchy.
#[derive(Clone, Copy, Debug, PartialEq, Eq, Structural)]
pub enum PlaceType {
    Port,
    SpecificRegion,
    BroadRegion,
}

/// The place type that a stored text names, if any.
pub open spec fn place_type_named(s: Seq<char>) -> Option<PlaceType> {
    if s == "Port"@ {
        Some(PlaceType::Port)
    } else if s == "SpecificRegion"@ {
        Some(PlaceType::SpecificRegion)
    } else if s == "BroadRegion"@ {
        Some(PlaceType::BroadRegion)
    } else {
        None
    }
}

/// The text under which a place type is stored.
pub open spec fn place_type_text(t: PlaceType) -> Seq<char> {
    match t {
        PlaceType::Port => "Port"@,
        PlaceType::SpecificRegion => "SpecificRegion"@,
        PlaceType::BroadRegion => "BroadRegion"@,
    }
}

impl PlaceType {
    /// The text under which the store keeps this place type.
    pub fn to_string(&self) -> (r: String)
        ensures
            r@ == place_type_text(*self),
    {
        match self {
            PlaceType::Port => String::from_str("Port"),
            PlaceType::SpecificRegion => String::from_str("SpecificRegion"),
            PlaceType::BroadRegion => String::from_str("BroadRegion"),
        }
    }

    /// Reads a place type from its stored text; any other text is an error.
    pub fn from_str(value: &str) -> (r: Result<PlaceType, DatabaseError>)
        ensures
            r is Ok <==> place_type_named(value@) is Some,
            r is Ok ==> r->Ok_0 == place_type_named(value@)->0,
            r is Err ==> r->Err_0 is InvalidPlaceType && r->Err_0->InvalidPlaceType_0@ == value@,
    {
        if spells(value, "Port") {
            Ok(PlaceType::Port)
        } else if spells(value, "SpecificRegion") {
            Ok(PlaceType::SpecificRegion)
        } else if spells(value, "BroadRegion") {
            Ok(PlaceType::BroadRegion)
        } else {
            Err(DatabaseError::InvalidPlaceType(String::from_str(value)))
        }
    }
}

/// Errors of the store and of reading its rows.
#[derive(Debug)]
pub enum DatabaseError {
    InsertPlaceRow(Place),
    InsertVoyageRow(Voyage),
    InitializationError(String),
    InvalidPlaceType(String),
    RowDeserializationError(String),
    SearchError(String),
    QueryError(String),
}

/// A node of the hierarchy: a port, a specific region or a broad region.
#[derive(Debug, Clone, PartialEq)]
pub struct Place {
    pub id: i64,
    pub place_type: PlaceType,
    pub value: i32,
    pub name: String,
    pub region_value: Option<i32>,
    pub region_name: Option<String>,
    pub broad_region_value: Option<i32>,
    pub broad_region_name: Option<String>,
}

/// A voyage between two places, each given at up to three levels.
#[derive(Debug, Clone, PartialEq)]
pub struct Voyage {
    pub id: i64,
    pub origin_port: Option<i32>,
    pub origin_region: Option<i32>,
    pub origin_broad_region: Option<i32>,
    pub destination_port: Option<i32>,
    pub destination_region: Option<i32>,
    pub destination_broad_region: Option<i32>,
    pub embark_date: Option<String>,
    pub disembark_date: Option<String>,
    pub slaves_embarked: Option<i32>,
    pub slaves_disembarked: Option<i32>,
}

impl DatabaseError {
    /// An error of setting up the store.
    pub fn from_string(error: &str) -> (r: DatabaseError)
        ensures
            r is InitializationError && r->InitializationError_0@ == error@,
    {
        DatabaseError::InitializationError(String::from_str(error))
    }

    /// An error of a search.
    pub fn search_error(error: &str) -> (r: DatabaseError)
        ensures
            r is SearchError && r->SearchError_0@ == error@,
    {
        DatabaseError::SearchError(String::from_str(error))
    }

    /// An error of a query.
    pub fn query_error(error: &str) -> (r: DatabaseError)
        ensures
            r is QueryError && r->QueryError_0@ == error@,
    {
        DatabaseError::QueryError(String::from_str(error))
    }
}

/// A row of the places table as the store holds it, the place type as text.
pub struct PlaceRow {
    pub id: i64,
    pub place_type: String,
    pub value: i32,
    pub name: String,
    pub region_value: Option<i32>,
    pub region_name: Option<String>,
    pub broad_region_value: Option<i32>,
    pub broad_region_name: Option<String>,
}

impl Place {
    /// Reads a stored row; a place type the store should not hold is an error,
    /// never a default.
    pub fn from_row(row: PlaceRow) -> (r: Result<Place, DatabaseError>)
        ensures
            r is Ok <==> place_type_named(row.place_type@) is Some,
            r is Ok ==> r->Ok_0 == (Place {
                id: row.id,
                place_type: place_type_named(row.place_type@)->0,
                value: row.value,
                name: row.name,
                region_value: row.region_value,
                region_name: row.region_name,
                broad_region_value: row.broad_region_value,
                broad_region_name: row.broad_region_name,
            }),
            r is Err ==> r->Err_0 is InvalidPlaceType && r->Err_0->InvalidPlaceType_0@
                == row.place_type@,
    {
        match PlaceType::from_str(row.place_type.as_str()) {
            Ok(place_type) => Ok(
                Place {
                    id: row.id,
                    place_type,
                    value: row.value,
                    name: row.name,
                    region_value: row.region_value,
                    region_name: row.region_name,
                    broad_region_value: row.broad_region_value,
                    broad_region_name: row.broad_region_name,
                },
            ),
            Err(e) => Err(e),
        }
    }

    /// A port carries its region and broad region; a specific region carries
    /// only its broad region; a broad region carries neither.
    pub open spec fn wf(self) -> bool {
        match self.place_type {
            PlaceType::Port => self.region_value is Some && self.region_name is Some
                && self.broad_region_value is Some && self.broad_region_name is Some,
            PlaceType::SpecificRegion => self.region_value is None && self.region_name is None
                && self.broad_region_value is Some && self.broad_region_name is Some,
            PlaceType::BroadRegion => self.region_value is None && self.region_name is None
                && self.broad_region_value is None && self.broad_region_name is None,
        }
    }
}

/// A row of the geography table: a port with its specific and broad region.
#[derive(Debug, Clone, PartialEq)]
pub struct Port {
    pub broad_region_value: i32,
    pub broad_region: String,
    pub specific_region_value: i32,
    pub specific_region: String,
    pub value: i32,
    pub name: String,
}

/// Why a place is not a port.
#[derive(Debug)]
pub enum PortConversionError {
    InvalidPlaceType(PlaceType),
    MissingField(&'static str),
}

/// The place that a port row stands for; the store assigns its id.
pub open spec fn place_of_port(port: Port) -> Place {
    Place {
        id: 0,
        place_type: PlaceType::Port,
        value: port.value,
        name: port.name,
        region_value: Some(port.specific_region_value),
        region_name: Some(port.specific_region),
        broad_region_value: Some(port.broad_region_value),
        broad_region_name: Some(port.broad_region),
    }
}

impl vstd::std_specs::convert::FromSpecImpl<Port> for Place {
    open spec fn obeys_from_spec() -> bool {
        true
    }

    open spec fn from_spec(port: Port) -> Place {
        place_of_port(port)
    }
}

impl From<Port> for Place {
    fn from(port: Port) -> Place {
        Place {
            id: 0,
            place_type: PlaceType::Port,
            value: port.value,
            name: port.name,
            region_value: Some(port.specific_region_value),
            region_name: Some(port.specific_region),
            broad_region_value: Some(port.broad_region_value),
            broad_region_name: Some(port.broad_region),
        }
    }
}

/// Reading back the text of a place type gives the same place type.
pub proof fn lemma_place_type_text_round_trip(t: PlaceType)
    ensures
        place_type_named(place_type_text(t)) == Some(t),
{
    reveal_strlit("Port");
    reveal_strlit("SpecificRegion");
    reveal_strlit("BroadRegion");
    assert("Port"@.len() == 4 && "SpecificRegion"@.len() == 14 && "BroadRegion"@.len() == 11);
}

/// Every place made from a port is a well-formed port.
pub proof fn lemma_place_of_port_wf(port: Port)
    ensures
        place_of_port(port).wf(),
        place_of_port(port).place_type == PlaceType::Port,
{
}

impl Port {
    /// The port that a place stands for: it must be a port and carry both
    /// regions, checked in the order broad region value, broad region name,
    /// region value, region name.
    pub fn try_from(place: Place) -> (r: Result<Port, PortConversionError>)
        ensures
            place.place_type != PlaceType::Port ==> r is Err && r->Err_0 is InvalidPlaceType
                && r->Err_0->InvalidPlaceType_0 == place.place_type,
            place.place_type == PlaceType::Port && place.broad_region_value is None ==> r is Err
                && r->Err_0 is MissingField && r->Err_0->MissingField_0@ == "broad_region_value"@,
            place.place_type == PlaceType::Port && place.broad_region_value is Some
                && place.broad_region_name is None ==> r is Err && r->Err_0 is MissingField
                && r->Err_0->MissingField_0@ == "broad_region"@,
            place.place_type == PlaceType::Port && place.broad_region_value is Some
                && place.broad_region_name is Some && place.region_value is None ==> r is Err
                && r->Err_0 is MissingField && r->Err_0->MissingField_0@ == "specific_region_value"@,
            place.place_type == PlaceType::Port && place.broad_region_value is Some
                && place.broad_region_name is Some && place.region_value is Some
                && place.region_name is None ==> r is Err && r->Err_0 is MissingField
                && r->Err_0->MissingField_0@ == "specific_region"@,
            place.wf() && place.place_type == PlaceType::Port ==> r is Ok && place_of_port(r->Ok_0)
                == (Place { id: 0, ..place }),
    {
        if place.place_type != PlaceType::Port {
            return Err(PortConversionError::InvalidPlaceType(place.place_type));
        }
        let broad_region_value = match place.broad_region_value {
            Some(v) => v,
            None => {
                return Err(PortConversionError::MissingField("broad_region_value"));
            },
        };
        let broad_region = match place.broad_region_name {
            Some(v) => v,
            None => {
                return Err(PortConversionError::MissingField("broad_region"));
            },
        };
        let specific_region_value = match place.region_value {
            Some(v) => v,
            None => {
                return Err(PortConversionError::MissingField("specific_region_value"));
            },
        };
        let specific_region = match place.region_name {
            Some(v) => v,
            None => {
                return Err(PortConversionError::MissingField("specific_region"));
            },
        };
        Ok(
            Port {
                broad_region_value,
                broad_region,
                specific_region_value,
                specific_region,
                value: place.value,
                name: place.name,
            },
        )
    }
}

/// Statistics of the voyages of one route. The mean journey length is
/// `total_journey_days / timed_voyages` over the voyages whose two dates are
/// known.
#[derive(Debug)]
pub struct RouteAnalysis {
    pub origin_place: Place,
    pub destination_place: Place,
    pub total_voyages: u64,
    pub total_embarked: i128,
    pub total_disembarked: i128,
    pub timed_voyages: u64,
    pub total_journey_days: i128,
}

/// The voyages that embarked in one year, or one month of a year.
#[derive(Debug, Clone, Copy, PartialEq, Eq)]
pub struct TemporalPattern {
    pub year: i32,
    pub month: Option<i32>,
    pub voyage_count: u64,
    pub total_embarked: i128,
    pub total_disembarked: i128,
}

/// The role of a route endpoint.
#[derive(Clone, Copy, Debug, PartialEq, Eq, Structural)]
pub enum NodeType {
    Origin,
    Destination,
}

/// Whether a search input holds a chosen place.
#[derive(Clone, Copy, Debug, PartialEq, Eq, Structural)]
pub enum SearchState {
    NotSet,
    Selected,
}

/// One endpoint of a route being chosen: its state, its place and its text.
#[derive(Clone, PartialEq)]
pub struct SearchNode {
    pub state: SearchState,
    pub selected_place: Option<Place>,
    pub input_value: String,
}

/// The gazetteer's contents, read once from the store and never changed.
pub struct Store {
    pub places: Vec<Place>,
    pub voyages: Vec<Voyage>,
}

/// A copy of an optional text.
pub fn copy_text(s: &Option<String>) -> (r: Option<String>)
    ensures
        r == *s,
{
    match s {
        Some(t) => Some(t.clone()),
        None => None,
    }
}

impl Place {
    /// A field-by-field copy of this place.
    pub fn duplicate(&self) -> (r: Place)
        ensures
            r == *self,
    {
        Place {
            id: self.id,
            place_type: self.place_type,
            value: self.value,
            name: self.name.clone(),
            region_value: self.region_value,
            region_name: copy_text(&self.region_name),
            broad_region_value: self.broad_region_value,
            broad_region_name: copy_text(&self.broad_region_name),
        }
    }
}

impl Voyage {
    /// A field-by-field copy of this voyage.
    pub fn duplicate(&self) -> (r: Voyage)
        ensures
            r == *self,
    {
        Voyage {
            id: self.id,
            origin_port: self.origin_port,
            origin_region: self.origin_region,
            origin_broad_region: self.origin_broad_region,
            destination_port: self.destination_port,
            destination_region: self.destination_region,
            destination_broad_region: self.destination_broad_region,
            embark_date: copy_text(&self.embark_date),
            disembark_date: copy_text(&self.disembark_date),
            slaves_embarked: self.slaves_embarked,
            slaves_disembarked: self.slaves_disembarked,
        }
    }
}

} // verus!
