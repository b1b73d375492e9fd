pub mod catalog;
pub mod engine;
pub mod gateway;
pub mod lead;
pub mod persist;
pub mod prefs;
pub mod text;

pub use catalog::{
    first_minimum, get_sens, get_stop_id, parse_network, NetworkError, Stop, StopCatalog, NORTHBOUND,
    SOUTHBOUND,
};
pub use engine::{
    finish_trip, handle_intent, intent_kind, plan_trip, EngineError, IntentKind, IntentRequest,
    Reply, Step, TripAnswer, TripQuery,
};
pub use gateway::{parse_next_departure, GatewayError, TRAM_LINE};
pub use lead::{lead_minutes_from_slot, lead_minutes_of, LeadDuration};
pub use persist::{PersistState, MAX_SNAPSHOT_BYTES};
pub use prefs::PreferenceStore;
