//! Conversion between plain decimal numbers ("1000000") and their
//! thousands-grouped form ("1,000,000").
pub mod grouping;
pub mod parsers;
