use path_rpc::city::{node_name_of, City};

#[test]
fn city_names_map_to_cities() {
    assert_eq!(City::from("New York City"), City::NewYorkCity);
    assert_eq!(City::from("Boston"), City::Boston);
    assert_eq!(City::from("Providence"), City::Providence);
    assert_eq!(City::from("Bar Harbor"), City::BarHarbor);
}

#[test]
fn unknown_city_names_do_not_exist() {
    assert_eq!(City::from("Atlantis"), City::DNE);
    assert_eq!(City::from("boston"), City::DNE);
    assert_eq!(City::from(""), City::DNE);
}

#[test]
fn cities_map_to_node_ids() {
    let ids: Vec<u64> = vec![
        City::NewYorkCity.into(),
        City::Boston.into(),
        City::Providence.into(),
        City::BarHarbor.into(),
        City::DNE.into(),
    ];
    assert_eq!(ids, vec![0, 1, 2, 3, u64::MAX]);
}

#[test]
fn node_names_read_back_as_their_cities() {
    for id in 0u64..4 {
        let name = node_name_of(id);
        let back: u64 = City::from(name.as_str()).into();
        assert_eq!(back, id);
    }
    assert_eq!(node_name_of(7), "DNE");
    assert_eq!(node_name_of(u64::MAX), "DNE");
    assert_eq!(City::from(node_name_of(9).as_str()), City::DNE);
}
