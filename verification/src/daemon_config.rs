//! The daemon-side configuration values this subsystem reads: whether
//! coordinate logging is on, in which format lines are written, and the
//! alert limits. The surrounding daemon loads them from its
//! configuration file.

use vstd::prelude::*;

verus! {

/// The format coordinate log lines are written in.
#[derive(Clone, Copy, Debug, PartialEq, Eq, Structural)]
pub enum GpsLogFormat {
    Json,
    Csv,
    Raw,
    Simple,
}

impl Default for GpsLogFormat {
    /// The stand-alone default format.
    fn default() -> (r: Self)
        ensures
            r == GpsLogFormat::Json,
    {
        GpsLogFormat::Json
    }
}

/// Coordinate-logging configuration.
#[derive(Clone, Copy, Debug, PartialEq, Eq, Structural)]
pub struct GpsConfig {
    pub gps_logging_enabled: bool,
    pub gps_log_format: GpsLogFormat,
}

impl Default for GpsConfig {
    /// Logging on, in the simple line format.
    fn default() -> (r: Self)
        ensures
            r.gps_logging_enabled == true,
            r.gps_log_format == GpsLogFormat::Simple,
    {
        GpsConfig { gps_logging_enabled: true, gps_log_format: GpsLogFormat::Simple }
    }
}

/// Attack-alert configuration.
#[derive(Clone, Copy, Debug, PartialEq, Eq, Structural)]
pub struct AlertConfig {
    pub browser_notifications: bool,
    pub max_alerts: usize,
}

impl Default for AlertConfig {
    /// Browser notifications on, at most one hundred alerts kept.
    fn default() -> (r: Self)
        ensures
            r.browser_notifications == true,
            r.max_alerts == 100,
    {
        AlertConfig { browser_notifications: true, max_alerts: 100 }
    }
}

/// The daemon's command line: the path of its configuration file.
pub struct Args {
    pub config_path: String,
}

} // verus!
