//! Typed parsing and validation for a small measurement logger: SI units,
//! device slugs of the form `port@node.driver`, measurements of the form
//! `value[unit]`, and space-separated lists of them, each with a verified
//! parse/format pair, plus the logger's decision layer around them.

pub mod decimal;
pub mod device;
pub mod logger;
pub mod measurement;
pub mod measurements_list;
pub mod numtext;
pub mod scan;
pub mod unit;
pub mod validator;

pub use device::Device;
pub use logger::AddError;
pub use logger::Args;
pub use logger::Command;
pub use logger::MeasurementPoint;
pub use logger::add_request;
pub use logger::create_line_for;
pub use logger::data_file_path;
pub use logger::get_command;
pub use logger::server_reply;
pub use validator::OrionLoggerValidator;
pub use measurement::Measurement;
pub use measurement::ParseMeasurementError;
pub use measurements_list::MeasurementsList;
pub use measurements_list::ParseMeasurementsListError;
pub use numtext::ParseNumberError;
pub use scan::str_eq;
pub use unit::ParseUnitError;
pub use unit::Unit;
