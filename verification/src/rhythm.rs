//! Element types of the rhythm stage and conversions between rhythm
//! representations.
pub mod types;
pub mod converters;
