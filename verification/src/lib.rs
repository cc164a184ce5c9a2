//! Verified core of the RIGStats hardware dashboard: log formatting, session
//! bookkeeping, sensor-name parsing and the small formatting rules the panels use.

pub mod debug;
pub mod text;
pub mod gpu_engine;
pub mod words;
pub mod panels;
pub mod numfmt;
pub mod paths;
pub mod update;
pub mod layout;
pub mod thresholds;
pub mod calendar;
pub mod sessions;
pub mod session_names;
pub mod diagnostics;
pub mod geometry;
pub mod spark;
pub mod sensors;
pub mod gpu_usage;
pub mod alerts;
pub mod brand;
pub mod csv;
pub mod sensor_tree;
