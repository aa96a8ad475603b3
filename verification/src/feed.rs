//! The parts of a GTFS-realtime feed (with the MTA's extensions) that the
//! library reads, as plain values.
use vstd::prelude::*;

verus! {

/// A translated string of an alert.
pub struct Translation {
    pub text: String,
    pub language: Option<String>,
}

/// All translations of one piece of alert text.
pub struct TranslatedString {
    pub translation: Vec<Translation>,
}

/// A time interval in unix seconds; either end may be open.
pub struct TimeRange {
    pub start: Option<u64>,
    pub end: Option<u64>,
}

/// The MTA's extension of an informed entity.
pub struct MercuryEntitySelector {
    pub sort_order: String,
}

/// What an alert informs about.
pub struct EntitySelector {
    pub route_id: Option<String>,
    pub stop_id: Option<String>,
    pub mercury_entity_selector: Option<MercuryEntitySelector>,
}

/// The MTA's extension of an alert.
pub struct MercuryAlert {
    pub created_at: u64,
    pub updated_at: u64,
    pub alert_type: String,
    pub display_before_active: Option<u64>,
    pub clone_id: Option<String>,
}

/// A service alert of a GTFS-realtime feed.
pub struct GtfsAlert {
    pub active_period: Vec<TimeRange>,
    pub informed_entity: Vec<EntitySelector>,
    pub header_text: Option<TranslatedString>,
    pub description_text: Option<TranslatedString>,
    pub mercury_alert: Option<MercuryAlert>,
}

/// The MTA's subway extension of a trip descriptor.
#[derive(Debug)]
pub struct NyctTripDescriptor {
    pub train_id: Option<String>,
    pub is_assigned: Option<bool>,
    pub direction: Option<i32>,
}

/// Identifies a trip of a GTFS-realtime feed.
#[derive(Debug)]
pub struct TripDescriptor {
    pub trip_id: Option<String>,
    pub route_id: Option<String>,
    pub direction_id: Option<u32>,
    pub start_time: Option<String>,
    pub start_date: Option<String>,
    pub nyct_trip_descriptor: Option<NyctTripDescriptor>,
}

/// An arrival or departure prediction.
#[derive(Clone, Copy)]
pub struct StopTimeEvent {
    pub time: Option<i64>,
}

/// A prediction for one stop of a trip.
pub struct StopTimeUpdate {
    pub stop_id: Option<String>,
    pub arrival: Option<StopTimeEvent>,
    pub departure: Option<StopTimeEvent>,
}

/// Identifies a vehicle.
pub struct VehicleDescriptor {
    pub id: Option<String>,
    pub label: Option<String>,
}

/// A vehicle's reported position: its trip, where it is relative to its
/// stop (`current_status`), its stop and the time of the report.
pub struct VehiclePosition {
    pub trip: Option<TripDescriptor>,
    pub current_status: Option<i32>,
    pub current_stop_sequence: Option<u32>,
    pub timestamp: Option<u64>,
    pub stop_id: Option<String>,
}

/// Realtime predictions for one trip.
pub struct TripUpdate {
    pub trip: TripDescriptor,
    pub vehicle: Option<VehicleDescriptor>,
    pub stop_time_update: Vec<StopTimeUpdate>,
    pub delay: Option<i32>,
}

} // verus!
