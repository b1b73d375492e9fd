use vstd::prelude::*;

use crate::catalog::{
    closest_stop, direction_of, get_sens, get_stop_id, stop_name, StopCatalog, StopView,
};
use crate::gateway::{GatewayError, TRAM_LINE};
use crate::lead::{lead_minutes_from_slot, slot_lead};
use crate::prefs::{lookup, PreferenceStore};
use crate::text::text_opt;

verus! {

/// An intent as the voice platform hands it over: its name and the slots
/// that the caller filled.
#[derive(Debug, Clone, PartialEq, Eq)]
pub struct IntentRequest {
    pub name: String,
    /// Where the caller leaves from, as spoken.
    pub depart: Option<String>,
    /// Where the caller goes, as spoken.
    pub destination: Option<String>,
    /// The lead time, as an ISO 8601 duration.
    pub lead: Option<String>,
}

/// Name, departure, destination and lead slots of an intent.
pub type IntentView = (Seq<char>, Option<Seq<char>>, Option<Seq<char>>, Option<Seq<char>>);

impl View for IntentRequest {
    type V = IntentView;

    open spec fn view(&self) -> IntentView {
        (self.name@, text_opt(self.depart), text_opt(self.destination), text_opt(self.lead))
    }
}

/// The intents this engine handles.
#[derive(Debug, PartialEq, Eq, Structural, Clone, Copy)]
pub enum IntentKind {
    SetDefaultDeparture,
    SetDefaultDestination,
    AskDefaults,
    DeleteData,
    LeaveTime,
}

pub open spec fn intent_kind_of(name: Seq<char>) -> Option<IntentKind> {
    if name == "SetDefaultDeparture"@ {
        Some(IntentKind::SetDefaultDeparture)
    } else if name == "SetDefaultDestination"@ {
        Some(IntentKind::SetDefaultDestination)
    } else if name == "AskDefaults"@ {
        Some(IntentKind::AskDefaults)
    } else if name == "DeleteData"@ {
        Some(IntentKind::DeleteData)
    } else if name == "LeaveTimeIntent"@ {
        Some(IntentKind::LeaveTime)
    } else {
        None
    }
}

fn same_text(a: &str, b: &str) -> (r: bool)
    ensures
        r == (a@ == b@),
{
    let x = a.to_owned();
    let y = b.to_owned();
    x == y
}

/// Which intent a name denotes.
pub fn intent_kind(name: &str) -> (r: Option<IntentKind>)
    ensures
        r == intent_kind_of(name@),
{
    if same_text(name, "SetDefaultDeparture") {
        Some(IntentKind::SetDefaultDeparture)
    } else if same_text(name, "SetDefaultDestination") {
        Some(IntentKind::SetDefaultDestination)
    } else if same_text(name, "AskDefaults") {
        Some(IntentKind::AskDefaults)
    } else if same_text(name, "DeleteData") {
        Some(IntentKind::DeleteData)
    } else if same_text(name, "LeaveTimeIntent") {
        Some(IntentKind::LeaveTime)
    } else {
        None
    }
}

/// Why an intent could not be answered.
#[derive(Debug, PartialEq, Eq, Structural, Clone, Copy)]
pub enum EngineError {
    /// A place name matched no stop, or a stop is not in the catalog.
    UnknownStop,
    /// No departure was given and none is recorded.
    MissingDeparture,
    /// No destination was given and none is recorded.
    MissingDestination,
    /// The schedule source gave no usable answer.
    Schedule(GatewayError),
    /// The intent's name is not one this engine handles.
    UnsupportedIntent,
}

/// A schedule query, ready to be sent, with what is needed to phrase its answer.
#[derive(Debug, Clone, PartialEq, Eq)]
pub struct TripQuery {
    pub from_stop: usize,
    pub to_stop: usize,
    pub line: usize,
    pub sens: usize,
    pub lead_minutes: u64,
    pub departure_name: String,
    pub destination_name: String,
}

/// From, to, line, direction, lead time, and the two stops' names.
pub type TripQueryView = (usize, usize, usize, usize, u64, Seq<char>, Seq<char>);

impl View for TripQuery {
    type V = TripQueryView;

    open spec fn view(&self) -> TripQueryView {
        (
            self.from_stop,
            self.to_stop,
            self.line,
            self.sens,
            self.lead_minutes,
            self.departure_name@,
            self.destination_name@,
        )
    }
}

/// The departure of a trip and its lead time: the spoken place with no lead
/// time, else the caller's recorded default.
pub open spec fn departure_choice(
    cat: Seq<StopView>,
    departures: Map<Seq<char>, (usize, u64)>,
    caller: Seq<char>,
    slot: Option<Seq<char>>,
) -> Result<(usize, u64), EngineError> {
    match slot {
        Some(place) => match closest_stop(cat, place) {
            Some(id) => Ok((id, 0)),
            None => Err(EngineError::UnknownStop),
        },
        None => match lookup(departures, caller) {
            Some(d) => Ok(d),
            None => Err(EngineError::MissingDeparture),
        },
    }
}

/// The destination of a trip: the spoken place, else the caller's default.
pub open spec fn destination_choice(
    cat: Seq<StopView>,
    destinations: Map<Seq<char>, usize>,
    caller: Seq<char>,
    slot: Option<Seq<char>>,
) -> Result<usize, EngineError> {
    match slot {
        Some(place) => match closest_stop(cat, place) {
            Some(id) => Ok(id),
            None => Err(EngineError::UnknownStop),
        },
        None => match lookup(destinations, caller) {
            Some(d) => Ok(d),
            None => Err(EngineError::MissingDestination),
        },
    }
}

/// The schedule query for a trip, or why there is none.
pub open spec fn trip_plan(
    cat: Seq<StopView>,
    departures: Map<Seq<char>, (usize, u64)>,
    destinations: Map<Seq<char>, usize>,
    caller: Seq<char>,
    depart: Option<Seq<char>>,
    destination: Option<Seq<char>>,
) -> Result<TripQueryView, EngineError> {
    match departure_choice(cat, departures, caller, depart) {
        Err(e) => Err(e),
        Ok((from, lead)) => match destination_choice(cat, destinations, caller, destination) {
            Err(e) => Err(e),
            Ok(to) => match (stop_name(cat, from), stop_name(cat, to)) {
                (Some(dn), Some(tn)) => Ok(
                    (from, to, TRAM_LINE, direction_of(cat, from, to), lead, dn, tn),
                ),
                _ => Err(EngineError::UnknownStop),
            },
        },
    }
}

/// Works out the schedule query for a trip: the stops from the spoken places
/// or from the caller's defaults, then the direction between them.
pub fn plan_trip(
    catalog: &StopCatalog,
    store: &PreferenceStore,
    caller: &str,
    depart: &Option<String>,
    destination: &Option<String>,
) -> (r: Result<TripQuery, EngineError>)
    requires
        store.wf(),
    ensures
        match r {
            Ok(q) => trip_plan(
                catalog@,
                store.departures(),
                store.destinations(),
                caller@,
                text_opt(*depart),
                text_opt(*destination),
            ) == Ok::<TripQueryView, EngineError>(q@),
            Err(e) => trip_plan(
                catalog@,
                store.departures(),
                store.destinations(),
                caller@,
                text_opt(*depart),
                text_opt(*destination),
            ) == Err::<TripQueryView, EngineError>(e),
        },
{
    let (from_stop, lead_minutes) = match depart {
        Some(place) => match get_stop_id(catalog, place.as_str()) {
            Some(id) => (id, 0u64),
            None => {
                return Err(EngineError::UnknownStop);
            },
        },
        None => match store.get_departure(caller) {
            Some(d) => d,
            None => {
                return Err(EngineError::MissingDeparture);
            },
        },
    };
    let to_stop = match destination {
        Some(place) => match get_stop_id(catalog, place.as_str()) {
            Some(id) => id,
            None => {
                return Err(EngineError::UnknownStop);
            },
        },
        None => match store.get_destination(caller) {
            Some(d) => d,
            None => {
                return Err(EngineError::MissingDestination);
            },
        },
    };
    let departure_name = match catalog.display_name(from_stop) {
        Some(n) => n,
        None => {
            return Err(EngineError::UnknownStop);
        },
    };
    let destination_name = match catalog.display_name(to_stop) {
        Some(n) => n,
        None => {
            return Err(EngineError::UnknownStop);
        },
    };
    let sens = get_sens(catalog, from_stop, to_stop);
    Ok(
        TripQuery {
            from_stop,
            to_stop,
            line: TRAM_LINE,
            sens,
            lead_minutes,
            departure_name,
            destination_name,
        },
    )
}

/// The answer to a trip question.
#[derive(Debug, Clone, PartialEq, Eq)]
pub enum TripAnswer {
    /// The caller has `time_left` minutes before leaving: the tram departs in
    /// `minutes`, and the caller wants `lead_minutes` to reach the stop.
    Leave {
        departure: String,
        destination: String,
        time_left: u64,
        minutes: u64,
        lead_minutes: u64,
    },
    /// No tram that the caller can still catch is coming.
    NoDeparture { departure: String, destination: String },
}

/// A trip answer with its stop names as character sequences.
pub enum TripAnswerView {
    Leave(Seq<char>, Seq<char>, u64, u64, u64),
    NoDeparture(Seq<char>, Seq<char>),
}

impl View for TripAnswer {
    type V = TripAnswerView;

    open spec fn view(&self) -> TripAnswerView {
        match self {
            TripAnswer::Leave { departure, destination, time_left, minutes, lead_minutes } =>
                TripAnswerView::Leave(departure@, destination@, *time_left, *minutes, *lead_minutes),
            TripAnswer::NoDeparture { departure, destination } => TripAnswerView::NoDeparture(
                departure@,
                destination@,
            ),
        }
    }
}

/// The answer to a trip once the schedule source has spoken. A tram that
/// leaves no later than the caller's lead time is one the caller cannot
/// catch: it counts as no departure.
pub open spec fn trip_outcome(q: TripQueryView, schedule: Result<Option<u64>, GatewayError>) -> Result<
    TripAnswerView,
    EngineError,
> {
    match schedule {
        Err(e) => Err(EngineError::Schedule(e)),
        Ok(None) => Ok(TripAnswerView::NoDeparture(q.5, q.6)),
        Ok(Some(m)) => if m > q.4 {
            Ok(TripAnswerView::Leave(q.5, q.6, (m - q.4) as u64, m, q.4))
        } else {
            Ok(TripAnswerView::NoDeparture(q.5, q.6))
        },
    }
}

/// Answers a trip from what the schedule source said of its query.
pub fn finish_trip(query: &TripQuery, schedule: Result<Option<u64>, GatewayError>) -> (r: Result<
    TripAnswer,
    EngineError,
>)
    ensures
        match r {
            Ok(a) => trip_outcome(query@, schedule) == Ok::<TripAnswerView, EngineError>(a@),
            Err(e) => trip_outcome(query@, schedule) == Err::<TripAnswerView, EngineError>(e),
        },
{
    match schedule {
        Err(e) => Err(EngineError::Schedule(e)),
        Ok(None) => Ok(
            TripAnswer::NoDeparture {
                departure: query.departure_name.clone(),
                destination: query.destination_name.clone(),
            },
        ),
        Ok(Some(m)) => if m > query.lead_minutes {
            Ok(
                TripAnswer::Leave {
                    departure: query.departure_name.clone(),
                    destination: query.destination_name.clone(),
                    time_left: m - query.lead_minutes,
                    minutes: m,
                    lead_minutes: query.lead_minutes,
                },
            )
        } else {
            Ok(
                TripAnswer::NoDeparture {
                    departure: query.departure_name.clone(),
                    destination: query.destination_name.clone(),
                },
            )
        },
    }
}

/// What an intent settles at once, without asking the schedule source.
#[derive(Debug, Clone, PartialEq, Eq)]
pub enum Reply {
    /// The default departure is now `place`, reached `lead_minutes` ahead.
    DepartureSet { place: String, lead_minutes: u64 },
    /// The default destination is now `place`.
    DestinationSet { place: String },
    /// The caller's defaults: departure name and lead time, destination name.
    Defaults { departure: Option<(String, u64)>, destination: Option<String> },
    /// Everything recorded for the caller is gone.
    DataDeleted,
}

/// A reply with its place names as character sequences.
pub enum ReplyView {
    DepartureSet(Seq<char>, u64),
    DestinationSet(Seq<char>),
    Defaults(Option<(Seq<char>, u64)>, Option<Seq<char>>),
    DataDeleted,
}

pub open spec fn named_lead_opt(o: Option<(String, u64)>) -> Option<(Seq<char>, u64)> {
    match o {
        Some((n, l)) => Some((n@, l)),
        None => None,
    }
}

impl View for Reply {
    type V = ReplyView;

    open spec fn view(&self) -> ReplyView {
        match self {
            Reply::DepartureSet { place, lead_minutes } => ReplyView::DepartureSet(
                place@,
                *lead_minutes,
            ),
            Reply::DestinationSet { place } => ReplyView::DestinationSet(place@),
            Reply::Defaults { departure, destination } => ReplyView::Defaults(
                named_lead_opt(*departure),
                text_opt(*destination),
            ),
            Reply::DataDeleted => ReplyView::DataDeleted,
        }
    }
}

/// What handling an intent leads to: a reply, or a schedule query to run.
#[derive(Debug, Clone, PartialEq, Eq)]
pub enum Step {
    Reply(Reply),
    Query(TripQuery),
}

/// A step with its names as character sequences.
pub enum StepView {
    Reply(ReplyView),
    Query(TripQueryView),
}

impl View for Step {
    type V = StepView;

    open spec fn view(&self) -> StepView {
        match self {
            Step::Reply(r) => StepView::Reply(r@),
            Step::Query(q) => StepView::Query(q@),
        }
    }
}

/// The name and lead time of a caller's default departure, if it has one
/// whose stop the catalog names.
pub open spec fn default_departure_named(
    cat: Seq<StopView>,
    departures: Map<Seq<char>, (usize, u64)>,
    caller: Seq<char>,
) -> Option<(Seq<char>, u64)> {
    match lookup(departures, caller) {
        Some((id, lead)) => match stop_name(cat, id) {
            Some(n) => Some((n, lead)),
            None => None,
        },
        None => None,
    }
}

pub open spec fn default_destination_named(
    cat: Seq<StopView>,
    destinations: Map<Seq<char>, usize>,
    caller: Seq<char>,
) -> Option<Seq<char>> {
    match lookup(destinations, caller) {
        Some(id) => stop_name(cat, id),
        None => None,
    }
}

/// What an intent leads to.
pub open spec fn intent_step(
    cat: Seq<StopView>,
    departures: Map<Seq<char>, (usize, u64)>,
    destinations: Map<Seq<char>, usize>,
    caller: Seq<char>,
    intent: IntentView,
) -> Result<StepView, EngineError> {
    match intent_kind_of(intent.0) {
        Some(IntentKind::SetDefaultDeparture) => match intent.1 {
            None => Err(EngineError::MissingDeparture),
            Some(place) => match closest_stop(cat, place) {
                None => Err(EngineError::UnknownStop),
                Some(_) => Ok(
                    StepView::Reply(
                        ReplyView::DepartureSet(place, slot_lead(intent.3) as u64),
                    ),
                ),
            },
        },
        Some(IntentKind::SetDefaultDestination) => match intent.2 {
            None => Err(EngineError::MissingDestination),
            Some(place) => match closest_stop(cat, place) {
                None => Err(EngineError::UnknownStop),
                Some(_) => Ok(StepView::Reply(ReplyView::DestinationSet(place))),
            },
        },
        Some(IntentKind::AskDefaults) => Ok(
            StepView::Reply(
                ReplyView::Defaults(
                    default_departure_named(cat, departures, caller),
                    default_destination_named(cat, destinations, caller),
                ),
            ),
        ),
        Some(IntentKind::DeleteData) => Ok(StepView::Reply(ReplyView::DataDeleted)),
        Some(IntentKind::LeaveTime) => match trip_plan(
            cat,
            departures,
            destinations,
            caller,
            intent.1,
            intent.2,
        ) {
            Ok(q) => Ok(StepView::Query(q)),
            Err(e) => Err(e),
        },
        None => Err(EngineError::UnsupportedIntent),
    }
}

/// The default departures once an intent is handled.
pub open spec fn departures_after(
    cat: Seq<StopView>,
    departures: Map<Seq<char>, (usize, u64)>,
    caller: Seq<char>,
    intent: IntentView,
) -> Map<Seq<char>, (usize, u64)> {
    match intent_kind_of(intent.0) {
        Some(IntentKind::SetDefaultDeparture) => match intent.1 {
            Some(place) => match closest_stop(cat, place) {
                Some(id) => departures.insert(caller, (id, slot_lead(intent.3) as u64)),
                None => departures,
            },
            None => departures,
        },
        Some(IntentKind::DeleteData) => departures.remove(caller),
        _ => departures,
    }
}

/// The default destinations once an intent is handled.
pub open spec fn destinations_after(
    cat: Seq<StopView>,
    destinations: Map<Seq<char>, usize>,
    caller: Seq<char>,
    intent: IntentView,
) -> Map<Seq<char>, usize> {
    match intent_kind_of(intent.0) {
        Some(IntentKind::SetDefaultDestination) => match intent.2 {
            Some(place) => match closest_stop(cat, place) {
                Some(id) => destinations.insert(caller, id),
                None => destinations,
            },
            None => destinations,
        },
        Some(IntentKind::DeleteData) => destinations.remove(caller),
        _ => destinations,
    }
}

/// Handles one intent of a caller: records or forgets defaults and replies,
/// or hands back the schedule query that a trip question needs.
pub fn handle_intent(
    catalog: &StopCatalog,
    store: &mut PreferenceStore,
    caller: &str,
    intent: &IntentRequest,
) -> (r: Result<Step, EngineError>)
    requires
        old(store).wf(),
    ensures
        final(store).wf(),
        match r {
            Ok(s) => intent_step(
                catalog@,
                old(store).departures(),
                old(store).destinations(),
                caller@,
                intent@,
            ) == Ok::<StepView, EngineError>(s@),
            Err(e) => intent_step(
                catalog@,
                old(store).departures(),
                old(store).destinations(),
                caller@,
                intent@,
            ) == Err::<StepView, EngineError>(e),
        },
        final(store).departures() == departures_after(
            catalog@,
            old(store).departures(),
            caller@,
            intent@,
        ),
        final(store).destinations() == destinations_after(
            catalog@,
            old(store).destinations(),
            caller@,
            intent@,
        ),
{
    match intent_kind(intent.name.as_str()) {
        Some(IntentKind::SetDefaultDeparture) => {
            let place = match &intent.depart {
                Some(p) => p,
                None => {
                    return Err(EngineError::MissingDeparture);
                },
            };
            let stop_id = match get_stop_id(catalog, place.as_str()) {
                Some(id) => id,
                None => {
                    return Err(EngineError::UnknownStop);
                },
            };
            let lead_minutes = lead_minutes_from_slot(&intent.lead);
            store.set_departure(caller, stop_id, lead_minutes);
            Ok(Step::Reply(Reply::DepartureSet { place: place.clone(), lead_minutes }))
        },
        Some(IntentKind::SetDefaultDestination) => {
            let place = match &intent.destination {
                Some(p) => p,
                None => {
                    return Err(EngineError::MissingDestination);
                },
            };
            let stop_id = match get_stop_id(catalog, place.as_str()) {
                Some(id) => id,
                None => {
                    return Err(EngineError::UnknownStop);
                },
            };
            store.set_destination(caller, stop_id);
            Ok(Step::Reply(Reply::DestinationSet { place: place.clone() }))
        },
        Some(IntentKind::AskDefaults) => {
            let departure = match store.get_departure(caller) {
                Some((id, lead)) => match catalog.display_name(id) {
                    Some(n) => Some((n, lead)),
                    None => None,
                },
                None => None,
            };
            let destination = match store.get_destination(caller) {
                Some(id) => catalog.display_name(id),
                None => None,
            };
            Ok(Step::Reply(Reply::Defaults { departure, destination }))
        },
        Some(IntentKind::DeleteData) => {
            store.clear_all(caller);
            Ok(Step::Reply(Reply::DataDeleted))
        },
        Some(IntentKind::LeaveTime) => match plan_trip(
            catalog,
            store,
            caller,
            &intent.depart,
            &intent.destination,
        ) {
            Ok(q) => Ok(Step::Query(q)),
            Err(e) => Err(e),
        },
        None => Err(EngineError::UnsupportedIntent),
    }
}

} // verus!
