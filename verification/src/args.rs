use crate::transform::{plan_spec, plan_view, transformation_plan, Transformation};
use vstd::prelude::*;

verus! {

/// The command line of the tool: one operation to run on a CSV file.
#[derive(Debug, Clone)]
pub struct FlexiCsvArgs {
    pub operations_types: OperationsTypes,
}

/// The operations the tool offers.
#[derive(Debug, Clone)]
pub enum OperationsTypes {
    /// Split the CSV file into smaller files.
    Slice(SliceCommand),
    /// Apply transformations to fields of the CSV file.
    Transform(TransformCommand),
}

/// Arguments of the `slice` operation.
#[derive(Debug, Clone)]
pub struct SliceCommand {
    /// Path of the input file.
    pub input_file: String,
    /// Directory that receives the output files.
    pub output_dir: String,
    /// Number of data rows in each output file.
    pub num_lines_output_file: usize,
    /// Field delimiter of the CSV file.
    pub delimiter: char,
    /// Number of threads used to write the files.
    pub num_threads: usize,
    /// Columns whose values are turned into UPPERCASE.
    pub to_uppercase: Option<Vec<String>>,
    /// Columns whose values are turned into lowercase.
    pub to_lowercase: Option<Vec<String>>,
    /// Columns whose values lose their accents (ASCII transliteration).
    pub to_normalized: Option<Vec<String>>,
    /// Columns whose values are turned into Title Case.
    pub to_titlecase: Option<Vec<String>>,
}

/// Arguments of the `transform` operation.
#[derive(Debug, Clone)]
pub struct TransformCommand {
    /// Path of the input file.
    pub input_file: String,
    /// Field delimiter of the CSV file.
    pub delimiter: char,
    /// Number of threads.
    pub num_threads: usize,
    /// Columns whose values are turned into UPPERCASE.
    pub to_uppercase: Option<Vec<String>>,
    /// Columns whose values are turned into lowercase.
    pub to_lowercase: Option<Vec<String>>,
    /// Columns whose values lose their accents (ASCII transliteration).
    pub to_normalized: Option<Vec<String>>,
    /// Columns whose values are turned into Title Case.
    pub to_titlecase: Option<Vec<String>>,
}

/// The field delimiter used when none is given.
pub const DEFAULT_DELIMITER: char = ';';

impl SliceCommand {
    /// The transformations asked for, one entry per kind that was given.
    pub fn transformations(&self) -> (plan: Vec<Transformation>)
        ensures
            plan_view(plan@) == plan_spec(
                self.to_uppercase.deep_view(),
                self.to_lowercase.deep_view(),
                self.to_normalized.deep_view(),
                self.to_titlecase.deep_view(),
            ),
    {
        transformation_plan(
            &self.to_uppercase,
            &self.to_lowercase,
            &self.to_normalized,
            &self.to_titlecase,
        )
    }
}

impl TransformCommand {
    /// The transformations asked for, one entry per kind that was given.
    pub fn transformations(&self) -> (plan: Vec<Transformation>)
        ensures
            plan_view(plan@) == plan_spec(
                self.to_uppercase.deep_view(),
                self.to_lowercase.deep_view(),
                self.to_normalized.deep_view(),
                self.to_titlecase.deep_view(),
            ),
    {
        transformation_plan(
            &self.to_uppercase,
            &self.to_lowercase,
            &self.to_normalized,
            &self.to_titlecase,
        )
    }
}

} // verus!
