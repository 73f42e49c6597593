//! Serialization of measurement records into a line-based wire format:
//! one line of text per record, holding a measurement name, a sorted list
//! of escaped tags, a list of typed fields and a nanosecond timestamp.
mod buf;
pub mod escape;
pub mod num;
pub mod order;
pub mod value;
pub mod line;

pub use escape::build_escapedtagstr;
pub use escape::build_escapedfieldstr;
pub use escape::escape_tagstr;
pub use escape::escape_fieldstr;
pub use value::FieldValue;
pub use value::MetricError;
pub use line::Tag;
pub use line::Field;
pub use line::Metric;
pub use line::Record;
pub use line::build_line;
pub use line::sort_tags;
