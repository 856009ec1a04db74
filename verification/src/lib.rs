//! Verified core of a command-line tool that slices a CSV file into smaller
//! files and transforms the values of chosen columns.

pub mod args;
pub mod transform;
pub mod table;
pub mod slicing;
pub mod output;
pub mod reader;
pub mod threads;
