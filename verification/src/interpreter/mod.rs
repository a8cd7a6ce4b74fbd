pub mod environment;
pub mod values;
