//! Forecast selection: the time-filtering and grouping rules that decide
//! which hourly forecast entries a weather display shows.
//!
//! The crate models forecast data with plain integer values (epoch seconds,
//! tenths of a degree, tenths of a percent) so that every rule — discarding
//! past days, capping the number of days, the one-hour grace window for
//! today, the fallback to the last few past hours, and the high-precipitation
//! flag — is stated and proved over those values.

pub mod group;
pub mod laws;
pub mod model;
pub mod select;
