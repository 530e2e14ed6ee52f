//! Efficiency calibration of gamma-ray detectors.
//!
//! This crate holds the exact part of the calibration engine, each function
//! with a proved contract: the calendar arithmetic behind source decay, the
//! registry that keeps one fit per detector name in step with the measurements,
//! the bookkeeping of the exponential models' parameters, and the references
//! from detector lines to a source's gamma lines. The floating-point work
//! (decay factors, efficiencies, least-squares fits, confidence bands, the
//! summed curve) builds on these in the application.

mod activity;
mod calendar;
mod error;
mod fit_model;
mod line_refs;
mod plot_settings;
mod registry;

pub use activity::elapsed_days;
pub use calendar::{
    day_number, days_before_month, days_in_month, is_leap_year, is_valid_date, CalendarDate,
    MAX_YEAR, MIN_YEAR,
};
pub use error::EfficiencyError;
pub use fit_model::{ModelOrder, ParameterKind};
pub use line_refs::{
    lemma_reference_keeps_its_line, reference_after_removal, spec_reference_after_removal,
};
pub use plot_settings::EguiPlotSettings;
pub use registry::{
    detector_names, distinct_detector_names, entries_map, has_name, is_synchronized,
    lemma_synchronize_idempotent, pooled, pooled_in, pooled_observations, synchronized_entry,
    unique_names, DetectorObservations, FitEntry, FitRegistry,
};
