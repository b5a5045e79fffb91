//! The metadata-lookup response of the content resolution protocol: a list
//! of distribution locations, of which the `"source"`-format entry points at
//! the raw payload.

use vstd::prelude::*;

use crate::graph::str_eq;

verus! {

/// One fetched asset's metadata.
pub struct AssetResponse {
    pub locations: Vec<Location>,
    pub request_id: String,
    pub is_archived: bool,
    pub asset_type_id: u64,
    pub is_recordable: bool,
}

/// One distribution location of an asset.
pub struct Location {
    pub asset_format: String,
    pub location: String,
    pub asset_metadatas: Vec<AssetMetadata>,
}

/// One metadata entry attached to a location.
pub struct AssetMetadata {
    pub metadata_type: u64,
    pub value: String,
}

pub ghost struct LocationV {
    pub asset_format: Seq<char>,
    pub location: Seq<char>,
}

impl View for Location {
    type V = LocationV;

    open spec fn view(&self) -> LocationV {
        LocationV { asset_format: self.asset_format@, location: self.location@ }
    }
}

impl AssetResponse {
    pub fn locations(&self) -> (r: &Vec<Location>)
        ensures
            r == &self.locations,
    {
        &self.locations
    }

    pub fn request_id(&self) -> (r: &String)
        ensures
            r@ == self.request_id@,
    {
        &self.request_id
    }
}

impl Location {
    pub fn asset_format(&self) -> (r: &String)
        ensures
            r@ == self.asset_format@,
    {
        &self.asset_format
    }

    pub fn location(&self) -> (r: &String)
        ensures
            r@ == self.location@,
    {
        &self.location
    }

    pub fn asset_metadatas(&self) -> (r: &Vec<AssetMetadata>)
        ensures
            r == &self.asset_metadatas,
    {
        &self.asset_metadatas
    }
}

impl AssetMetadata {
    pub fn metadata_type(&self) -> (r: u64)
        ensures
            r == self.metadata_type,
    {
        self.metadata_type
    }

    pub fn value(&self) -> (r: &String)
        ensures
            r@ == self.value@,
    {
        &self.value
    }
}

/// The distribution format whose location carries the raw payload.
pub open spec fn source_format() -> Seq<char> {
    "source"@
}

pub open spec fn locations_view(s: Seq<Location>) -> Seq<LocationV> {
    s.map_values(|l: Location| l@)
}

/// The location of the first entry in `"source"` format, if any: absence of
/// such an entry is a resolution failure.
pub open spec fn first_source(s: Seq<LocationV>) -> Option<Seq<char>>
    decreases s.len(),
{
    if s.len() == 0 {
        None
    } else if s[0].asset_format == source_format() {
        Some(s[0].location)
    } else {
        first_source(s.drop_first())
    }
}

/// Selects the payload location out of a metadata lookup's entries: the
/// first entry whose format is `"source"`.
#[verifier::loop_isolation(false)]
pub fn select_source_location(locations: &Vec<Location>) -> (r: Option<String>)
    ensures
        match r {
            Some(u) => first_source(locations_view(locations@)) == Some(u@),
            None => first_source(locations_view(locations@)) is None,
        },
{
    let ghost full = locations_view(locations@);
    proof {
        assert(full.skip(0) =~= full);
    }
    let mut j: usize = 0;
    while j < locations.len()
        invariant
            j <= locations@.len(),
            first_source(full) == first_source(full.skip(j as int)),
        decreases locations@.len() - j,
    {
        if str_eq(locations[j].asset_format.as_str(), "source") {
            proof {
                assert(full.skip(j as int)[0] == locations@[j as int]@);
            }
            return Some(locations[j].location.clone());
        }
        proof {
            assert(full.skip(j as int)[0] == locations@[j as int]@);
            assert(full.skip(j as int).drop_first() =~= full.skip(j + 1));
        }
        j += 1;
    }
    proof {
        assert(full.skip(j as int).len() == 0);
    }
    None
}

} // verus!
