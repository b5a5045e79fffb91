//! The scene-collection listing: one page of scene identifiers and display
//! names, as returned by the paginated listing endpoint.

use vstd::prelude::*;

verus! {

/// One page of the scene collection listing.
pub struct UniversePlacesResponse {
    pub previous_page_cursor: Option<String>,
    pub next_page_cursor: Option<String>,
    pub data: Vec<Place>,
}

/// One scene of the collection.
pub struct Place {
    pub id: u64,
    pub universe_id: u64,
    pub name: String,
    pub description: String,
}

impl UniversePlacesResponse {
    pub fn previous_page_cursor(&self) -> (r: &Option<String>)
        ensures
            r == &self.previous_page_cursor,
    {
        &self.previous_page_cursor
    }

    pub fn next_page_cursor(&self) -> (r: &Option<String>)
        ensures
            r == &self.next_page_cursor,
    {
        &self.next_page_cursor
    }

    pub fn data(&self) -> (r: &Vec<Place>)
        ensures
            r == &self.data,
    {
        &self.data
    }
}

impl Place {
    pub fn id(&self) -> (r: &u64)
        ensures
            r == &self.id,
    {
        &self.id
    }

    pub fn universe_id(&self) -> (r: &u64)
        ensures
            r == &self.universe_id,
    {
        &self.universe_id
    }

    pub fn name(&self) -> (r: &String)
        ensures
            r@ == self.name@,
    {
        &self.name
    }

    pub fn description(&self) -> (r: &String)
        ensures
            r@ == self.description@,
    {
        &self.description
    }
}

} // verus!
