//! The cities that the server knows and the node identifiers that stand for them.

use vstd::prelude::*;
use crate::text::str_eq;

verus! {

/// A city of the road graph; `DNE` ("does not exist") stands for every name
/// that is not one of the known cities.
#[derive(Clone, Copy, PartialEq, Eq, Debug)]
pub enum City {
    NewYorkCity,
    Boston,
    Providence,
    BarHarbor,
    DNE,
}

/// The node identifier of a city in the road graph.
pub open spec fn city_id(c: City) -> u64 {
    match c {
        City::NewYorkCity => 0,
        City::Boston => 1,
        City::Providence => 2,
        City::BarHarbor => 3,
        City::DNE => u64::MAX,
    }
}

/// The city that a request names.
pub open spec fn city_of_name(name: Seq<char>) -> City {
    if name == "New York City"@ {
        City::NewYorkCity
    } else if name == "Boston"@ {
        City::Boston
    } else if name == "Providence"@ {
        City::Providence
    } else if name == "Bar Harbor"@ {
        City::BarHarbor
    } else {
        City::DNE
    }
}

/// The name under which a node identifier is reported back to a client.
pub open spec fn node_name(id: u64) -> Seq<char> {
    if id == 0 {
        "New York City"@
    } else if id == 1 {
        "Boston"@
    } else if id == 2 {
        "Providence"@
    } else if id == 3 {
        "Bar Harbor"@
    } else {
        "DNE"@
    }
}

impl From<City> for u64 {
    fn from(c: City) -> (r: u64) {
        match c {
            City::NewYorkCity => 0,
            City::Boston => 1,
            City::Providence => 2,
            City::BarHarbor => 3,
            City::DNE => u64::MAX,
        }
    }
}

impl vstd::std_specs::convert::FromSpecImpl<City> for u64 {
    open spec fn obeys_from_spec() -> bool {
        true
    }

    open spec fn from_spec(c: City) -> u64 {
        city_id(c)
    }
}

impl<'a> From<&'a str> for City {
    fn from(item: &'a str) -> (r: City) {
        if str_eq(item, "New York City") {
            City::NewYorkCity
        } else if str_eq(item, "Boston") {
            City::Boston
        } else if str_eq(item, "Providence") {
            City::Providence
        } else if str_eq(item, "Bar Harbor") {
            City::BarHarbor
        } else {
            City::DNE
        }
    }
}

impl<'a> vstd::std_specs::convert::FromSpecImpl<&'a str> for City {
    open spec fn obeys_from_spec() -> bool {
        true
    }

    open spec fn from_spec(item: &'a str) -> City {
        city_of_name(item@)
    }
}

/// The name of a node identifier, as the server reports a planned path.
pub fn node_name_of(id: u64) -> (r: String)
    ensures
        r@ == node_name(id),
{
    if id == 0 {
        String::from_str("New York City")
    } else if id == 1 {
        String::from_str("Boston")
    } else if id == 2 {
        String::from_str("Providence")
    } else if id == 3 {
        String::from_str("Bar Harbor")
    } else {
        String::from_str("DNE")
    }
}

/// A node reported by name is found again under that name: the name of a known city's node
/// names that city, and the name of any other node is not a known city's.
pub proof fn lemma_node_names_round_trip(id: u64)
    ensures
        id <= 3 ==> city_id(city_of_name(node_name(id))) == id,
        id > 3 ==> city_of_name(node_name(id)) == City::DNE,
{
    reveal_strlit("New York City");
    reveal_strlit("Boston");
    reveal_strlit("Providence");
    reveal_strlit("Bar Harbor");
    reveal_strlit("DNE");
    assert("Boston"@.len() != "New York City"@.len());
    assert("Providence"@.len() != "New York City"@.len());
    assert("Providence"@.len() != "Boston"@.len());
    assert("Bar Harbor"@.len() != "New York City"@.len());
    assert("Bar Harbor"@.len() != "Boston"@.len());
    assert("Bar Harbor"@[0] != "Providence"@[0]);
    assert("DNE"@.len() != "New York City"@.len());
    assert("DNE"@.len() != "Boston"@.len());
    assert("DNE"@.len() != "Providence"@.len());
    assert("DNE"@.len() != "Bar Harbor"@.len());
}

/// Only the four exact city names name a known city, each its own: every other name, such as
/// "New York" or "BarHarbor", names no city.
pub proof fn lemma_city_names_are_exact(name: Seq<char>)
    ensures
        (city_of_name(name) == City::NewYorkCity) == (name == "New York City"@),
        (city_of_name(name) == City::Boston) == (name == "Boston"@),
        (city_of_name(name) == City::Providence) == (name == "Providence"@),
        (city_of_name(name) == City::BarHarbor) == (name == "Bar Harbor"@),
        (city_of_name(name) == City::DNE) == (name != "New York City"@ && name != "Boston"@
            && name != "Providence"@ && name != "Bar Harbor"@),
{
    reveal_strlit("New York City");
    reveal_strlit("Boston");
    reveal_strlit("Providence");
    reveal_strlit("Bar Harbor");
    assert("Boston"@.len() != "New York City"@.len());
    assert("Providence"@.len() != "New York City"@.len());
    assert("Providence"@.len() != "Boston"@.len());
    assert("Bar Harbor"@.len() != "New York City"@.len());
    assert("Bar Harbor"@.len() != "Boston"@.len());
    assert("Bar Harbor"@[0] != "Providence"@[0]);
}

/// Each known city's node is reported under a name that names that city again, so (with
/// `lemma_city_names_are_exact`) under the city's own request name; no other node is
/// reported under a city's name.
pub proof fn lemma_nodes_are_reported_by_city_name(c: City, id: u64)
    ensures
        c != City::DNE ==> city_of_name(node_name(city_id(c))) == c,
        c == City::NewYorkCity ==> node_name(city_id(c)) == "New York City"@,
        c == City::Boston ==> node_name(city_id(c)) == "Boston"@,
        c == City::Providence ==> node_name(city_id(c)) == "Providence"@,
        c == City::BarHarbor ==> node_name(city_id(c)) == "Bar Harbor"@,
        id > 3 ==> city_of_name(node_name(id)) == City::DNE,
{
    lemma_node_names_round_trip(city_id(c));
    lemma_node_names_round_trip(id);
    lemma_city_names_are_exact(node_name(city_id(c)));
}

} // verus!
