//! Verified core of the Trackly inventory application: validation rules,
//! state decisions, report queries and formatting, and numeric/calendar
//! helpers.

pub mod acts;
pub mod auth;
pub mod backup;
pub mod calendar;
pub mod cartridges;
pub mod dashboard;
pub mod devices;
pub mod error;
pub mod numbering;
pub mod org;
pub mod places;
pub mod printer;
pub mod query;
pub mod report_sql;
pub mod reports;
pub mod text;
