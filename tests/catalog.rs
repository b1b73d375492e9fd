use tram_time::{first_minimum, get_sens, get_stop_id, parse_network, NetworkError, StopCatalog, NORTHBOUND, SOUTHBOUND};

const NETWORK: &str = "Boulingrin,1,1\n\
Gare,Gare - Rue Verte,2,1\n\
Palais de Justice,3,1\n\
Saint-Sever,4,1\n\
\n\
Georges Braque,20,2\n\
Grand Quevilly,21,2\n\
Technopole,30,3\n\
Champ de Courses,31,3\n";

fn network() -> StopCatalog {
    parse_network(NETWORK).unwrap()
}

#[test]
fn parse_network_reads_every_stop_in_order() {
    let cat = network();
    let ids: Vec<usize> = cat.stops.iter().map(|s| s.stop_id).collect();
    assert_eq!(ids, vec![1, 2, 3, 4, 20, 21, 30, 31]);
    assert_eq!(cat.stops[1].display_names, vec!["Gare".to_string(), "Gare - Rue Verte".to_string()]);
    assert_eq!(cat.stops[1].section_id, 1);
    assert_eq!(cat.stops[4].section_id, 2);
}

#[test]
fn parse_network_strips_carriage_returns() {
    let cat = parse_network("Nord,5,1\r\nSud,6,2\r\n").unwrap();
    assert_eq!(cat.stops.len(), 2);
    assert_eq!(cat.stops[0].display_names, vec!["Nord".to_string()]);
    assert_eq!(cat.stops[1].section_id, 2);
}

#[test]
fn parse_network_accepts_plus_sign_in_numbers() {
    let cat = parse_network("Nord,+5,+1").unwrap();
    assert_eq!(cat.stops[0].stop_id, 5);
    assert_eq!(cat.stops[0].section_id, 1);
}

#[test]
fn parse_network_rejects_line_without_name() {
    assert_eq!(parse_network("Nord,5,1\n6,2\n"), Err(NetworkError { line: 1 }));
}

#[test]
fn parse_network_rejects_bad_number() {
    assert_eq!(parse_network("Nord,5,1\n\nSud,x6,2\n"), Err(NetworkError { line: 2 }));
    assert_eq!(parse_network("Sud,6,2 "), Err(NetworkError { line: 0 }));
    assert_eq!(parse_network("Sud,99999999999999999999,2"), Err(NetworkError { line: 0 }));
}

#[test]
fn parse_network_of_empty_text_is_empty() {
    assert_eq!(parse_network("").unwrap().stops.len(), 0);
    assert_eq!(parse_network("\n\n").unwrap().stops.len(), 0);
}

#[test]
fn resolve_exact_name() {
    let cat = network();
    assert_eq!(get_stop_id(&cat, "Technopole"), Some(30));
    assert_eq!(get_stop_id(&cat, "Gare - Rue Verte"), Some(2));
    assert_eq!(get_stop_id(&cat, "Gare"), Some(2));
}

#[test]
fn resolve_every_display_name_to_its_stop() {
    let cat = network();
    for stop in &cat.stops {
        for name in &stop.display_names {
            assert_eq!(get_stop_id(&cat, name), Some(stop.stop_id));
        }
    }
}

#[test]
fn resolve_misheard_name() {
    let cat = network();
    assert_eq!(get_stop_id(&cat, "techno pole"), Some(30));
    assert_eq!(get_stop_id(&cat, "Boulingrain"), Some(1));
}

#[test]
fn resolve_anything_in_a_non_empty_catalog() {
    let cat = network();
    assert!(get_stop_id(&cat, "zzzzzzzzzzzzzzzzzzzzzzzzzzzz").is_some());
    assert!(get_stop_id(&cat, "").is_some());
}

#[test]
fn resolve_in_empty_catalog_is_none() {
    let cat = StopCatalog { stops: Vec::new() };
    assert_eq!(get_stop_id(&cat, "Gare"), None);
}

#[test]
fn resolve_tie_goes_to_first_in_catalog() {
    let cat = parse_network("Abc,1,1\nAbd,2,1\n").unwrap();
    assert_eq!(get_stop_id(&cat, "Abx"), Some(1));
}

#[test]
fn sens_from_trunk_to_branch_is_southbound() {
    let cat = network();
    assert_eq!(get_sens(&cat, 1, 20), SOUTHBOUND);
    assert_eq!(get_sens(&cat, 4, 31), SOUTHBOUND);
}

#[test]
fn sens_from_branch_to_trunk_is_northbound() {
    let cat = network();
    assert_eq!(get_sens(&cat, 20, 1), NORTHBOUND);
    assert_eq!(get_sens(&cat, 31, 4), NORTHBOUND);
}

#[test]
fn sens_between_branches_is_southbound() {
    let cat = network();
    assert_eq!(get_sens(&cat, 20, 30), SOUTHBOUND);
    assert_eq!(get_sens(&cat, 30, 20), SOUTHBOUND);
}

#[test]
fn sens_within_a_section_follows_catalog_order() {
    let cat = network();
    assert_eq!(get_sens(&cat, 1, 4), SOUTHBOUND);
    assert_eq!(get_sens(&cat, 4, 1), NORTHBOUND);
    assert_eq!(get_sens(&cat, 21, 20), NORTHBOUND);
    assert_eq!(get_sens(&cat, 3, 3), SOUTHBOUND);
}

#[test]
fn sens_is_deterministic() {
    let cat = network();
    for a in [1, 2, 3, 4, 20, 21, 30, 31] {
        for b in [1, 2, 3, 4, 20, 21, 30, 31] {
            assert_eq!(get_sens(&cat, a, b), get_sens(&cat, a, b));
        }
    }
}

#[test]
fn display_name_is_first_spelling() {
    let cat = network();
    assert_eq!(cat.display_name(2), Some("Gare".to_string()));
    assert_eq!(cat.display_name(99), None);
    assert_eq!(cat.position(20), Some(4));
}

#[test]
fn first_minimum_picks_first_least_value() {
    assert_eq!(first_minimum(&[5, 3, 7, 3, 9]), Some(1));
    assert_eq!(first_minimum(&[0, 0]), Some(0));
    assert_eq!(first_minimum(&[4]), Some(0));
    assert_eq!(first_minimum(&[9, 8, 7, 6]), Some(3));
    assert_eq!(first_minimum(&[]), None);
}
