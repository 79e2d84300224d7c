//! The data-center location table: routing tags mapped to country codes.
//!
//! The table is loaded from an external database by the caller; the lookup
//! itself is by exact IATA-code match, first match wins, and a tag with no
//! match resolves to the empty country code.

use vstd::prelude::*;

verus! {

/// One entry of the location table. Only the fields the classifier reads
/// are held: the IATA code of the data center and its two-letter country
/// code.
#[derive(Debug, Clone)]
pub struct DataCenterLocations {
    pub iata: String,
    pub cca2: String,
}

/// The country code of the first entry whose IATA code equals `tag`;
/// `None` when no entry matches.
pub open spec fn lookup_cca2(locs: Seq<DataCenterLocations>, tag: Seq<char>) -> Option<Seq<char>>
    decreases locs.len(),
{
    if locs.len() == 0 {
        None
    } else if locs.first().iata@ == tag {
        Some(locs.first().cca2@)
    } else {
        lookup_cca2(locs.drop_first(), tag)
    }
}

/// The country code a tag resolves to: the matched entry's code, or empty
/// when no entry matches.
pub open spec fn country_of(locs: Seq<DataCenterLocations>, tag: Seq<char>) -> Seq<char> {
    match lookup_cca2(locs, tag) {
        Some(c) => c,
        None => Seq::empty(),
    }
}

/// Finds the country code of the first entry matching the target IATA
/// code.
pub fn find_cca2(data_center_locations: &Vec<DataCenterLocations>, target_iata: &str) -> (r: Option<
    String,
>)
    ensures
        match r {
            Some(c) => lookup_cca2(data_center_locations@, target_iata@) == Some(c@),
            None => lookup_cca2(data_center_locations@, target_iata@) is None,
        },
{
    let target: String = target_iata.to_owned();
    let ghost all = data_center_locations@;
    proof {
        assert(all.skip(0) =~= all);
    }
    let mut i: usize = 0;
    while i < data_center_locations.len()
        invariant
            i <= all.len(),
            all == data_center_locations@,
            target@ == target_iata@,
            lookup_cca2(all, target_iata@) == lookup_cca2(all.skip(i as int), target_iata@),
        decreases all.len() - i,
    {
        proof {
            assert(all.skip(i as int).first() == all[i as int]);
            assert(all.skip(i as int).drop_first() =~= all.skip(i as int + 1));
        }
        if data_center_locations[i].iata.eq(&target) {
            return Some(data_center_locations[i].cca2.clone());
        }
        i += 1;
    }
    proof {
        assert(all.skip(all.len() as int) =~= Seq::<DataCenterLocations>::empty());
    }
    None
}

/// The country code for a routing tag: the first matching entry's code,
/// or the empty string.
pub fn resolve_country(locations: &Vec<DataCenterLocations>, tag: &str) -> (r: String)
    ensures
        r@ == country_of(locations@, tag@),
{
    match find_cca2(locations, tag) {
        Some(c) => c,
        None => String::new(),
    }
}

} // verus!
