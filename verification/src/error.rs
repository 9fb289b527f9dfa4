use vstd::prelude::*;

verus! {

/// Why an operation of the engine gave no result.
#[derive(Clone, Copy, Debug, PartialEq, Eq, Structural)]
pub enum EngineError {
    /// A point cloud or a grade column held no value at all.
    EmptyInput,
    /// The points admit no triangle: fewer than three, or all on one line.
    DegenerateInput,
    /// The field at this data row and column cannot be read: it is missing,
    /// is no decimal number within the limits, is one more than the first
    /// record has, or is a coordinate further from the smallest of its
    /// axis than a mesh can hold. A column name that the header lacks is
    /// reported at row zero, in the column that the name has among the
    /// names asked for. Rows count from zero after the header row, columns
    /// from zero.
    FieldParse { row: usize, column: usize },
    /// An assay interval names a hole for which no survey station applies.
    MissingSurveyData,
    /// The lower and the upper quartile of a grade coincide.
    DegenerateScale,
}

} // verus!
