use tram_time::{
    finish_trip, handle_intent, intent_kind, parse_network, plan_trip, EngineError, GatewayError,
    IntentKind, IntentRequest, PreferenceStore, Reply, Step, StopCatalog, TripAnswer, TripQuery,
    SOUTHBOUND, TRAM_LINE,
};

fn catalog() -> StopCatalog {
    parse_network("CentralStation,Central,100,1\nMarket,101,1\nAirport,200,2\n").unwrap()
}

fn intent(name: &str, depart: Option<&str>, destination: Option<&str>, lead: Option<&str>) -> IntentRequest {
    IntentRequest {
        name: name.to_string(),
        depart: depart.map(|s| s.to_string()),
        destination: destination.map(|s| s.to_string()),
        lead: lead.map(|s| s.to_string()),
    }
}

fn query_of(step: Result<Step, EngineError>) -> TripQuery {
    match step {
        Ok(Step::Query(q)) => q,
        other => panic!("expected a schedule query, got {:?}", other),
    }
}

#[test]
fn explicit_stops_without_lead_time() {
    let cat = catalog();
    let mut store = PreferenceStore::new();
    let step = handle_intent(&cat, &mut store, "caller", &intent("LeaveTimeIntent", Some("CentralStation"), Some("Airport"), None));
    let q = query_of(step);
    assert_eq!((q.from_stop, q.to_stop, q.line, q.sens, q.lead_minutes), (100, 200, TRAM_LINE, SOUTHBOUND, 0));
    assert_eq!(
        finish_trip(&q, Ok(Some(12))),
        Ok(TripAnswer::Leave {
            departure: "CentralStation".to_string(),
            destination: "Airport".to_string(),
            time_left: 12,
            minutes: 12,
            lead_minutes: 0,
        })
    );
}

#[test]
fn stored_departure_with_lead_time() {
    let cat = catalog();
    let mut store = PreferenceStore::new();
    let set = handle_intent(&cat, &mut store, "caller", &intent("SetDefaultDeparture", Some("CentralStation"), None, Some("PT10M")));
    assert_eq!(set, Ok(Step::Reply(Reply::DepartureSet { place: "CentralStation".to_string(), lead_minutes: 10 })));
    assert_eq!(store.get_departure("caller"), Some((100, 10)));
    let q = query_of(handle_intent(&cat, &mut store, "caller", &intent("LeaveTimeIntent", None, Some("Airport"), None)));
    assert_eq!((q.from_stop, q.to_stop, q.lead_minutes), (100, 200, 10));
    match finish_trip(&q, Ok(Some(15))) {
        Ok(TripAnswer::Leave { time_left, minutes, lead_minutes, .. }) => {
            assert_eq!((time_left, minutes, lead_minutes), (5, 15, 10));
        },
        other => panic!("unexpected answer {:?}", other),
    }
}

#[test]
fn lead_time_equal_to_wait_means_no_departure() {
    let cat = catalog();
    let mut store = PreferenceStore::new();
    store.set_departure("caller", 100, 10);
    let q = query_of(handle_intent(&cat, &mut store, "caller", &intent("LeaveTimeIntent", None, Some("Airport"), None)));
    assert_eq!(
        finish_trip(&q, Ok(Some(10))),
        Ok(TripAnswer::NoDeparture { departure: "CentralStation".to_string(), destination: "Airport".to_string() })
    );
    assert!(matches!(finish_trip(&q, Ok(Some(11))), Ok(TripAnswer::Leave { time_left: 1, .. })));
}

#[test]
fn no_departure_known_is_missing_departure() {
    let cat = catalog();
    let mut store = PreferenceStore::new();
    let step = handle_intent(&cat, &mut store, "caller", &intent("LeaveTimeIntent", None, Some("Airport"), None));
    assert_eq!(step, Err(EngineError::MissingDeparture));
}

#[test]
fn no_destination_known_is_missing_destination() {
    let cat = catalog();
    let mut store = PreferenceStore::new();
    let step = handle_intent(&cat, &mut store, "caller", &intent("LeaveTimeIntent", Some("Market"), None, None));
    assert_eq!(step, Err(EngineError::MissingDestination));
}

#[test]
fn no_upcoming_departure_differs_from_failure() {
    let cat = catalog();
    let mut store = PreferenceStore::new();
    let q = query_of(handle_intent(&cat, &mut store, "caller", &intent("LeaveTimeIntent", Some("Central"), Some("Airport"), None)));
    let none = finish_trip(&q, Ok(None));
    assert_eq!(none, Ok(TripAnswer::NoDeparture { departure: "CentralStation".to_string(), destination: "Airport".to_string() }));
    assert_eq!(finish_trip(&q, Err(GatewayError::NetworkFailure)), Err(EngineError::Schedule(GatewayError::NetworkFailure)));
    assert_eq!(finish_trip(&q, Err(GatewayError::Unavailable)), Err(EngineError::Schedule(GatewayError::Unavailable)));
    assert_ne!(none, finish_trip(&q, Err(GatewayError::Unavailable)));
}

#[test]
fn unknown_stop_in_empty_catalog() {
    let cat = StopCatalog { stops: Vec::new() };
    let mut store = PreferenceStore::new();
    let step = handle_intent(&cat, &mut store, "caller", &intent("LeaveTimeIntent", Some("Market"), Some("Airport"), None));
    assert_eq!(step, Err(EngineError::UnknownStop));
    let set = handle_intent(&cat, &mut store, "caller", &intent("SetDefaultDestination", None, Some("Airport"), None));
    assert_eq!(set, Err(EngineError::UnknownStop));
}

#[test]
fn stored_stop_missing_from_catalog_is_unknown() {
    let cat = catalog();
    let mut store = PreferenceStore::new();
    store.set_departure("caller", 999, 0);
    let step = handle_intent(&cat, &mut store, "caller", &intent("LeaveTimeIntent", None, Some("Airport"), None));
    assert_eq!(step, Err(EngineError::UnknownStop));
}

#[test]
fn set_default_destination_then_ask() {
    let cat = catalog();
    let mut store = PreferenceStore::new();
    let set = handle_intent(&cat, &mut store, "caller", &intent("SetDefaultDestination", None, Some("Airprt"), None));
    assert_eq!(set, Ok(Step::Reply(Reply::DestinationSet { place: "Airprt".to_string() })));
    assert_eq!(store.get_destination("caller"), Some(200));
    let ask = handle_intent(&cat, &mut store, "caller", &intent("AskDefaults", None, None, None));
    assert_eq!(ask, Ok(Step::Reply(Reply::Defaults { departure: None, destination: Some("Airport".to_string()) })));
}

#[test]
fn ask_defaults_with_both() {
    let cat = catalog();
    let mut store = PreferenceStore::new();
    store.set_departure("caller", 101, 4);
    store.set_destination("caller", 100);
    let ask = handle_intent(&cat, &mut store, "caller", &intent("AskDefaults", None, None, None));
    assert_eq!(
        ask,
        Ok(Step::Reply(Reply::Defaults {
            departure: Some(("Market".to_string(), 4)),
            destination: Some("CentralStation".to_string()),
        }))
    );
}

#[test]
fn set_default_without_slot_is_missing() {
    let cat = catalog();
    let mut store = PreferenceStore::new();
    assert_eq!(handle_intent(&cat, &mut store, "c", &intent("SetDefaultDeparture", None, None, None)), Err(EngineError::MissingDeparture));
    assert_eq!(handle_intent(&cat, &mut store, "c", &intent("SetDefaultDestination", None, None, None)), Err(EngineError::MissingDestination));
    assert_eq!(store.get_departure("c"), None);
}

#[test]
fn set_default_departure_without_lead_slot() {
    let cat = catalog();
    let mut store = PreferenceStore::new();
    let set = handle_intent(&cat, &mut store, "c", &intent("SetDefaultDeparture", Some("Market"), None, None));
    assert_eq!(set, Ok(Step::Reply(Reply::DepartureSet { place: "Market".to_string(), lead_minutes: 0 })));
    assert_eq!(store.get_departure("c"), Some((101, 0)));
}

#[test]
fn delete_data_forgets_caller() {
    let cat = catalog();
    let mut store = PreferenceStore::new();
    store.set_departure("c", 101, 4);
    store.set_destination("c", 100);
    assert_eq!(handle_intent(&cat, &mut store, "c", &intent("DeleteData", None, None, None)), Ok(Step::Reply(Reply::DataDeleted)));
    assert_eq!(store.get_departure("c"), None);
    assert_eq!(store.get_destination("c"), None);
}

#[test]
fn unsupported_intent() {
    let cat = catalog();
    let mut store = PreferenceStore::new();
    assert_eq!(handle_intent(&cat, &mut store, "c", &intent("AMAZON.HelpIntent", None, None, None)), Err(EngineError::UnsupportedIntent));
}

#[test]
fn intent_names() {
    assert_eq!(intent_kind("LeaveTimeIntent"), Some(IntentKind::LeaveTime));
    assert_eq!(intent_kind("DeleteData"), Some(IntentKind::DeleteData));
    assert_eq!(intent_kind("leavetimeintent"), None);
}

#[test]
fn plan_from_defaults_only() {
    let cat = catalog();
    let mut store = PreferenceStore::new();
    assert_eq!(plan_trip(&cat, &store, "c", &None, &None), Err(EngineError::MissingDeparture));
    store.set_departure("c", 200, 3);
    store.set_destination("c", 100);
    let q = plan_trip(&cat, &store, "c", &None, &None).unwrap();
    assert_eq!((q.from_stop, q.to_stop, q.sens, q.lead_minutes), (200, 100, tram_time::NORTHBOUND, 3));
    assert_eq!(q.departure_name, "Airport");
    assert_eq!(q.destination_name, "CentralStation");
}
