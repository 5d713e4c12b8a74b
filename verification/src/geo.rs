//! Geographical enrichment: the `GeoData` record attached to each proxy,
//! the plain model of a city-database lookup result, and the extraction
//! rules that turn the latter into the former. Reading the database file
//! itself happens outside the library; the caller hands in a
//! `CityRecord` holding the looked-up fields as plain values.

use vstd::prelude::*;

verus! {

/// Geographical data attached to a proxy; all fields optional.
#[derive(Debug, Clone)]
pub struct GeoData {
    /// ISO country code (or continent code when only the continent is
    /// known).
    pub iso_code: Option<String>,
    /// Country name (or continent name).
    pub name: Option<String>,
    /// ISO code of the first subdivision.
    pub region_iso_code: Option<String>,
    /// Name of the first subdivision.
    pub region_name: Option<String>,
    /// City name.
    pub city_name: Option<String>,
}

impl GeoData {
    /// A record with every field empty.
    pub open spec fn spec_empty() -> GeoData {
        GeoData {
            iso_code: None,
            name: None,
            region_iso_code: None,
            region_name: None,
            city_name: None,
        }
    }

    /// Builds the empty record.
    pub fn empty() -> (r: GeoData)
        ensures
            r == GeoData::spec_empty(),
    {
        GeoData { iso_code: None, name: None, region_iso_code: None, region_name: None, city_name: None }
    }
}

impl Default for GeoData {
    /// The default record has every field empty.
    fn default() -> (r: GeoData)
        ensures
            r == GeoData::spec_empty(),
    {
        GeoData::empty()
    }
}

/// A place as the city database names it: an ISO (or continent) code and
/// an English name, both optional.
#[derive(Debug, Clone)]
pub struct NamedPlace {
    pub code: Option<String>,
    pub name: Option<String>,
}

/// What a city-database lookup yields, as plain values: the country (or
/// the continent when no country is recorded), the subdivisions in
/// database order, and the city name.
#[derive(Debug, Clone)]
pub struct CityRecord {
    pub country: Option<NamedPlace>,
    pub continent: Option<NamedPlace>,
    pub subdivisions: Vec<NamedPlace>,
    pub city_name: Option<String>,
}

/// The geographical record extracted from a lookup result: the country's
/// code and name when a country is present, else the continent's; the
/// first subdivision's code and name, if any; and the city name.
pub open spec fn spec_extract_geo(rec: CityRecord) -> GeoData {
    let (iso, nm): (Option<String>, Option<String>) = match rec.country {
        Some(c) => (c.code, c.name),
        None => match rec.continent {
            Some(c) => (c.code, c.name),
            None => (None, None),
        },
    };
    let (riso, rnm): (Option<String>, Option<String>) = if rec.subdivisions.len() > 0 {
        (rec.subdivisions[0].code, rec.subdivisions[0].name)
    } else {
        (None, None)
    };
    GeoData {
        iso_code: iso,
        name: nm,
        region_iso_code: riso,
        region_name: rnm,
        city_name: rec.city_name,
    }
}

/// Clones an optional string.
pub fn clone_opt_string(o: &Option<String>) -> (r: Option<String>)
    ensures
        r == *o,
{
    match o {
        Some(s) => Some(s.clone()),
        None => None,
    }
}

/// Applies the extraction rules to a lookup result.
pub fn extract_geo(rec: &CityRecord) -> (r: GeoData)
    ensures
        r == spec_extract_geo(*rec),
{
    let mut geo = GeoData::empty();
    match &rec.country {
        Some(c) => {
            geo.iso_code = clone_opt_string(&c.code);
            geo.name = clone_opt_string(&c.name);
        },
        None => {
            match &rec.continent {
                Some(c) => {
                    geo.iso_code = clone_opt_string(&c.code);
                    geo.name = clone_opt_string(&c.name);
                },
                None => {},
            }
        },
    }
    if rec.subdivisions.len() > 0 {
        let division = &rec.subdivisions[0];
        geo.region_iso_code = clone_opt_string(&division.code);
        geo.region_name = clone_opt_string(&division.name);
    }
    geo.city_name = clone_opt_string(&rec.city_name);
    geo
}

} // verus!
