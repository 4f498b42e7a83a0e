//! Dashboards over recorded metrics.

pub mod dashboard;
pub mod plot;
