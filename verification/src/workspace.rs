//! What a file holds, told by its name.

use vstd::prelude::*;

verus! {

/// How a workcell is written to a file.
#[derive(Clone, Copy, Debug, PartialEq, Eq)]
pub enum ExportFormat {
    /// The workcell's own form.
    Default,
    /// A kinematic description.
    Urdf,
}

impl Default for ExportFormat {
    fn default() -> (r: ExportFormat)
        ensures
            r == ExportFormat::Default,
    {
        ExportFormat::Default
    }
}

/// The bytes of a file, by what they hold.
#[derive(Clone, Debug, PartialEq, Eq)]
pub enum WorkspaceData {
    /// A workcell in its own form.
    Workcell(Vec<u8>),
    /// A kinematic description that is to be read as a workcell.
    WorkcellUrdf(Vec<u8>),
}

/// What the name of a workcell file ends with.
pub open spec fn workcell_suffix() -> Seq<char> {
    "workcell.json"@
}

/// What the name of a file with a kinematic description ends with.
pub open spec fn urdf_suffix() -> Seq<char> {
    "urdf"@
}

/// `str::ends_with` with a string as the pattern: whether `s` ends with
/// `suffix`.
#[verifier::external_body]
fn ends_with(s: &str, suffix: &str) -> (r: bool)
    ensures
        r == suffix@.is_suffix_of(s@),
{
    s.ends_with(suffix)
}

impl WorkspaceData {
    /// Sorts the bytes of a file by the file's name: a name that ends with
    /// `workcell.json` holds a workcell, else one that ends with `urdf` holds
    /// a kinematic description, and any other name is not recognized.
    pub fn new(filename: &str, data: Vec<u8>) -> (r: Option<WorkspaceData>)
        ensures
            r == if workcell_suffix().is_suffix_of(filename@) {
                Some(WorkspaceData::Workcell(data))
            } else if urdf_suffix().is_suffix_of(filename@) {
                Some(WorkspaceData::WorkcellUrdf(data))
            } else {
                None
            },
    {
        if ends_with(filename, "workcell.json") {
            Some(WorkspaceData::Workcell(data))
        } else if ends_with(filename, "urdf") {
            Some(WorkspaceData::WorkcellUrdf(data))
        } else {
            None
        }
    }
}

} // verus!
