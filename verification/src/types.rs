pub mod boolean;
pub mod chars;
pub mod decimal;
pub mod float;
pub mod formatter;
pub mod integer;
pub mod key;
pub mod measurement;
pub mod name;
pub mod parser;
pub mod quoted;
pub mod timestamp;
pub mod value;
