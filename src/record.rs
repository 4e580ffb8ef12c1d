//! Arcade records as the pipeline sees them.
use vstd::prelude::*;

verus! {

/// A geocoded position, as the decimal text of its latitude and longitude.
#[derive(Debug, Clone, PartialEq, Eq)]
pub struct Location {
    pub lat: String,
    pub lng: String,
}

/// One physical arcade location in the directory.
#[derive(Debug, Clone, PartialEq, Eq)]
pub struct Arcade {
    /// Stable identifier, assigned once when the record is first created.
    pub arcade_id: i32,
    /// Canonical name.
    pub arcade_name: String,
    /// Free-text address; a change of it calls for a new geocoding.
    pub arcade_address: String,
    /// Set once the location is no longer listed by the source.
    pub arcade_dead: bool,
    /// Operator-supplied cost of a game, as decimal text; never touched here.
    pub arcade_cost: Option<String>,
    /// Operator-supplied number of machines; never touched here.
    pub arcade_count: Option<i32>,
    /// Latitude, as decimal text.
    pub arcade_lat: String,
    /// Longitude, as decimal text.
    pub arcade_lng: String,
    /// Creation time in milliseconds since the Unix epoch; set once.
    pub created_at: i64,
}

/// What a `Location` holds.
pub struct LocationModel {
    pub lat: Seq<char>,
    pub lng: Seq<char>,
}

/// What an `Arcade` holds.
pub struct ArcadeModel {
    pub id: i32,
    pub name: Seq<char>,
    pub address: Seq<char>,
    pub dead: bool,
    pub cost: Option<Seq<char>>,
    pub count: Option<i32>,
    pub lat: Seq<char>,
    pub lng: Seq<char>,
    pub created_at: i64,
}

impl View for Location {
    type V = LocationModel;

    open spec fn view(&self) -> LocationModel {
        LocationModel { lat: self.lat@, lng: self.lng@ }
    }
}

impl View for Arcade {
    type V = ArcadeModel;

    open spec fn view(&self) -> ArcadeModel {
        ArcadeModel {
            id: self.arcade_id,
            name: self.arcade_name@,
            address: self.arcade_address@,
            dead: self.arcade_dead,
            cost: match self.arcade_cost {
                Some(c) => Some(c@),
                None => None,
            },
            count: self.arcade_count,
            lat: self.arcade_lat@,
            lng: self.arcade_lng@,
            created_at: self.created_at,
        }
    }
}

/// The models of a sequence of records.
pub open spec fn models(v: Seq<Arcade>) -> Seq<ArcadeModel> {
    v.map_values(|a: Arcade| a@)
}

/// A copy of a record, field by field.
pub fn copy_arcade(a: &Arcade) -> (r: Arcade)
    ensures
        r@ == a@,
{
    let cost = match &a.arcade_cost {
        Some(c) => Some(c.clone()),
        None => None,
    };
    Arcade {
        arcade_id: a.arcade_id,
        arcade_name: a.arcade_name.clone(),
        arcade_address: a.arcade_address.clone(),
        arcade_dead: a.arcade_dead,
        arcade_cost: cost,
        arcade_count: a.arcade_count,
        arcade_lat: a.arcade_lat.clone(),
        arcade_lng: a.arcade_lng.clone(),
        created_at: a.created_at,
    }
}

} // verus!
