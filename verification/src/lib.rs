//! Time tracking: projects, time entries, billing, reports.

pub mod text;
pub mod dates;
pub mod instants;
pub mod models;
pub mod palette;
pub mod billing;
pub mod exporter;
pub mod invoice;
pub mod store;
pub mod views;
pub mod icons;
