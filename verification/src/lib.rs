//! A verified codec for the InfluxDB line protocol: a line-oriented text
//! format in which a record carries a measurement name, ordered tag and field
//! sets, and an optional integer timestamp, with backslash escaping of
//! special characters.

pub mod error;
pub mod line;
pub mod types;

pub use crate::error::InfluxLineError;
pub use crate::line::InfluxLine;
pub use crate::types::boolean::Boolean;
pub use crate::types::float::FloatValue;
pub use crate::types::integer::{InfluxInteger, InfluxUInteger};
pub use crate::types::key::KeyName;
pub use crate::types::measurement::MeasurementName;
pub use crate::types::name::{InfluxName, MalformedNameError, NameParseError};
pub use crate::types::quoted::QuotedString;
pub use crate::types::timestamp::{Timestamp, UtcDateTime};
pub use crate::types::value::InfluxValue;
