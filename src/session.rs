//! The decisions of choosing a route: typing in an endpoint searches with the
//! other endpoint as constraint; choosing both endpoints resolves the route.
use vstd::prelude::*;
use crate::model::{NodeType, Place, SearchNode, SearchState};

verus! {

/// What the caller is to do after an event.
pub enum SessionAction {
    /// Clear the suggestions shown for this endpoint.
    ClearSuggestions(NodeType),
    /// Search places for `query` in `role`, constrained by `other` when chosen.
    Search { query: String, role: NodeType, other: Option<Place> },
    /// Resolve the voyages from `origin` to `destination`.
    FetchVoyages { origin: Place, destination: Place },
}

/// The two endpoints of a route being chosen.
pub struct SearchSession {
    pub origin: SearchNode,
    pub destination: SearchNode,
}

/// An endpoint with nothing chosen and `text` typed.
pub open spec fn typed_node(text: Seq<char>, node: SearchNode) -> bool {
    node.state == SearchState::NotSet && node.selected_place is None && node.input_value@ == text
}

/// An endpoint with `place` chosen, showing its name.
pub open spec fn chosen_node(place: Place, node: SearchNode) -> bool {
    node.state == SearchState::Selected && node.selected_place == Some(place) && node.input_value@
        == place.name@
}

fn copy_place_option(p: &Option<Place>) -> (r: Option<Place>)
    ensures
        r == *p,
{
    match p {
        Some(place) => Some(place.duplicate()),
        None => None,
    }
}

impl SearchSession {
    /// The endpoint in `role`.
    pub open spec fn node(self, role: NodeType) -> SearchNode {
        match role {
            NodeType::Origin => self.origin,
            NodeType::Destination => self.destination,
        }
    }

    /// A session with neither endpoint chosen nor typed.
    pub fn new() -> (r: SearchSession)
        ensures
            typed_node(Seq::empty(), r.origin),
            typed_node(Seq::empty(), r.destination),
    {
        SearchSession {
            origin: SearchNode {
                state: SearchState::NotSet,
                selected_place: None,
                input_value: String::new(),
            },
            destination: SearchNode {
                state: SearchState::NotSet,
                selected_place: None,
                input_value: String::new(),
            },
        }
    }

    /// `query` was typed for `role`: that endpoint is no longer chosen. An
    /// empty query clears its suggestions; any other searches, constrained by
    /// the place chosen for the other endpoint, if any.
    pub fn on_search(&mut self, query: String, role: NodeType) -> (action: SessionAction)
        ensures
            typed_node(query@, final(self).node(role)),
            final(self).node(crate::search::opposite(role)) == old(self).node(
                crate::search::opposite(role),
            ),
            query@.len() == 0 ==> action == SessionAction::ClearSuggestions(role),
            query@.len() > 0 ==> action is Search && action->Search_query@ == query@
                && action->Search_role == role && action->Search_other == old(self).node(
                crate::search::opposite(role),
            ).selected_place,
    {
        let other = match role {
            NodeType::Origin => copy_place_option(&self.destination.selected_place),
            NodeType::Destination => copy_place_option(&self.origin.selected_place),
        };
        let empty = query.as_str().unicode_len() == 0;
        let node = SearchNode {
            state: SearchState::NotSet,
            selected_place: None,
            input_value: query.clone(),
        };
        match role {
            NodeType::Origin => {
                self.origin = node;
            },
            NodeType::Destination => {
                self.destination = node;
            },
        }
        if empty {
            SessionAction::ClearSuggestions(role)
        } else {
            SessionAction::Search { query, role, other }
        }
    }

    /// `place` was chosen for `role`. Once both endpoints are chosen the route
    /// is resolved; until then the endpoint's suggestions are cleared.
    pub fn on_select(&mut self, place: Place, role: NodeType) -> (action: SessionAction)
        ensures
            chosen_node(place, final(self).node(role)),
            final(self).node(crate::search::opposite(role)) == old(self).node(
                crate::search::opposite(role),
            ),
            final(self).origin.selected_place is Some && final(self).destination.selected_place is Some
                ==> action == (SessionAction::FetchVoyages {
                origin: final(self).origin.selected_place->0,
                destination: final(self).destination.selected_place->0,
            }),
            !(final(self).origin.selected_place is Some && final(self).destination.selected_place is Some)
                ==> action == SessionAction::ClearSuggestions(role),
    {
        let node = SearchNode {
            state: SearchState::Selected,
            selected_place: Some(place.duplicate()),
            input_value: place.name.clone(),
        };
        match role {
            NodeType::Origin => {
                self.origin = node;
            },
            NodeType::Destination => {
                self.destination = node;
            },
        }
        match (&self.origin.selected_place, &self.destination.selected_place) {
            (Some(o), Some(d)) => SessionAction::FetchVoyages {
                origin: o.duplicate(),
                destination: d.duplicate(),
            },
            _ => SessionAction::ClearSuggestions(role),
        }
    }

    /// Both endpoints are cleared.
    pub fn reset(&mut self)
        ensures
            typed_node(Seq::empty(), final(self).origin),
            typed_node(Seq::empty(), final(self).destination),
    {
        *self = SearchSession::new();
    }
}

} // verus!
