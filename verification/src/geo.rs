//! General geographic data structures.

use vstd::prelude::*;

verus! {

/// A latitude/longitude pair in fixed-point units of 1e-7 degrees, each
/// stored as an `i32`. 90 degrees is `900_000_000` units, 180 degrees is
/// `1_800_000_000` units.
#[derive(Debug, PartialEq, Eq, Hash, Copy, Clone, Structural)]
pub struct Coordinate {
    pub lat: i32,
    pub lon: i32,
}

/// A coordinate boundary: the minimal and maximal latitude and longitude.
/// While `freeze` is false the boundary can grow to include coordinates;
/// a frozen boundary ignores expansion.
#[derive(Debug, PartialEq, Eq, Clone, Structural)]
pub struct Boundary {
    pub min: Coordinate,
    pub max: Coordinate,
    pub freeze: bool,
}

impl Coordinate {
    /// Build a coordinate from fixed-point units of 1e-7 degrees.
    pub fn new(lat: i32, lon: i32) -> (c: Coordinate)
        ensures
            c.lat == lat,
            c.lon == lon,
    {
        Coordinate { lat, lon }
    }
}

impl Boundary {
    /// The inverted boundary as a value: what [`Boundary::inverted`]
    /// returns.
    pub open spec fn spec_inverted() -> Boundary {
        Boundary {
            min: Coordinate { lat: 900_000_000, lon: 1_800_000_000 },
            max: Coordinate { lat: -900_000_000i32, lon: -1_800_000_000i32 },
            freeze: false,
        }
    }

    /// True when `c` lies inside the boundary.
    pub open spec fn spec_contains(&self, c: Coordinate) -> bool {
        self.min.lat <= c.lat <= self.max.lat && self.min.lon <= c.lon <= self.max.lon
    }

    /// An explicit boundary from its two corners, not frozen.
    pub fn new(min: Coordinate, max: Coordinate) -> (b: Boundary)
        ensures
            b == (Boundary { min, max, freeze: false }),
    {
        Boundary { min, max, freeze: false }
    }

    /// The world boundary turned inside out: min holds the greatest possible
    /// corner and max the smallest, so that the first expansion initialises
    /// both corners.
    pub fn inverted() -> (b: Boundary)
        ensures
            b == Boundary::spec_inverted(),
    {
        Boundary {
            min: Coordinate { lat: 900_000_000, lon: 1_800_000_000 },
            max: Coordinate { lat: -900_000_000i32, lon: -1_800_000_000i32 },
            freeze: false,
        }
    }

    /// Grow the boundary so that it includes `c`. A frozen boundary is left
    /// untouched.
    pub fn expand(&mut self, c: Coordinate)
        ensures
            old(self).freeze ==> *final(self) == *old(self),
            !old(self).freeze ==> {
                &&& final(self).min.lat == if c.lat < old(self).min.lat { c.lat } else { old(self).min.lat }
                &&& final(self).max.lat == if c.lat > old(self).max.lat { c.lat } else { old(self).max.lat }
                &&& final(self).min.lon == if c.lon < old(self).min.lon { c.lon } else { old(self).min.lon }
                &&& final(self).max.lon == if c.lon > old(self).max.lon { c.lon } else { old(self).max.lon }
                &&& final(self).freeze == old(self).freeze
            },
            !old(self).freeze ==> final(self).spec_contains(c),
    {
        if self.freeze {
            return;
        }

        if c.lat > self.max.lat {
            self.max.lat = c.lat;
        }
        if c.lat < self.min.lat {
            self.min.lat = c.lat;
        }
        if c.lon > self.max.lon {
            self.max.lon = c.lon;
        }
        if c.lon < self.min.lon {
            self.min.lon = c.lon;
        }
    }
}

impl Default for Boundary {
    /// The whole-world boundary, not frozen.
    fn default() -> (b: Self)
        ensures
            b.min == (Coordinate { lat: -900_000_000i32, lon: -1_800_000_000i32 }),
            b.max == (Coordinate { lat: 900_000_000, lon: 1_800_000_000 }),
            !b.freeze,
    {
        Boundary {
            min: Coordinate { lat: -900_000_000i32, lon: -1_800_000_000i32 },
            max: Coordinate { lat: 900_000_000, lon: 1_800_000_000 },
            freeze: false,
        }
    }
}

} // verus!
