use vstd::prelude::*;

verus! {

/// A drawing file from which topography points are taken.
#[derive(Clone, Debug, PartialEq, Eq)]
pub struct DxfFile {
    pub path: String,
}

/// A delimited text file and how it is to be read: whether its first
/// record is a header row, and the byte that separates its fields.
#[derive(Clone, Debug, PartialEq, Eq)]
pub struct CsvFile {
    pub path: String,
    pub header: bool,
    pub sep: u8,
}

/// The four tables of a drillhole dataset, in this order: assay, header,
/// lithology, survey.
#[derive(Clone, Debug, PartialEq, Eq)]
pub struct DrillHole {
    pub files: [CsvFile; 4],
}

} // verus!
