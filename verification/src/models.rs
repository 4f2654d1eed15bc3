//! Metadata shapes for datasets as the surrounding store records
//! them: the fields of a new dataset and of an update.

use vstd::prelude::*;

verus! {

/// A dataset to be recorded: the safe table name the driver
/// returned, the uploaded file's name and format, an optional
/// description, and the measured row count and file size.
#[derive(Debug, Clone, PartialEq, Eq)]
pub struct CreateDataset {
    pub name: String,
    pub file_name: String,
    pub kind: String,
    pub description: Option<String>,
    pub row_count: u64,
    pub size: u64,
}

/// The fields of a dataset that can change after creation.
#[derive(Debug, Clone, PartialEq, Eq)]
pub struct UpdateDataset {
    pub description: Option<String>,
}

} // verus!
