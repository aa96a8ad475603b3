//! Transit data normalization: identifiers, schedules, alerts and static feeds.
pub mod source;
pub mod text;
pub mod ids;
pub mod num;
pub mod clock;
pub mod feed;
pub mod alerts;
pub mod mta_bus_static;
pub mod njt_static;
pub mod calendar;
pub mod realtime;
pub mod color;
pub mod models;
pub mod subway_static;
pub mod subway_realtime;
pub mod njt_route_stops;
pub mod trajectory;
pub mod njt_patterns;
pub mod rt_data;
pub mod rt_train;
pub mod subway_stations;
pub mod params;
pub mod subway_times;
pub mod store_rows;
pub mod route_import;
pub mod static_cache;
pub mod laws;
