use vstd::prelude::*;
use vstd::string::StringExecFns;

verus! {

/// Failure kinds of the debug-information engine. Failures are scoped to the
/// smallest unit of work: a malformed line program drops one unit's rows, an
/// unresolvable variable yields "value unavailable", and only an unreadable
/// top-level buffer fails a whole load.
#[derive(Clone, Copy, PartialEq, Eq, Structural, Debug)]
pub enum DwarfError {
    /// A named debug section is absent; it is treated as empty.
    SectionMissing,
    /// A line-number program referenced an undeclared file index.
    MalformedLineProgram,
    /// A unit's entry tree could not be walked; that unit is skipped.
    EntryTreeCorrupt,
    /// No subprogram's address range contains the queried offset.
    SubroutineNotFound,
    /// A location expression used an operation code this engine does not know.
    UnsupportedLocationOp,
    /// A type could not be resolved, or a byte span is shorter than the type needs.
    TypeMismatch,
}

/// The words `message` answers for each kind.
pub open spec fn spec_message(e: DwarfError) -> Seq<char> {
    match e {
        DwarfError::SectionMissing => "section missing"@,
        DwarfError::MalformedLineProgram => "malformed line program"@,
        DwarfError::EntryTreeCorrupt => "entry tree corrupt"@,
        DwarfError::SubroutineNotFound => "subroutine not found"@,
        DwarfError::UnsupportedLocationOp => "unsupported location operation"@,
        DwarfError::TypeMismatch => "type mismatch"@,
    }
}

impl DwarfError {
    /// A short description of the failure, one fixed text per kind.
    pub fn message(&self) -> (r: String)
        ensures
            r@ == spec_message(*self),
    {
        match self {
            DwarfError::SectionMissing => String::from_str("section missing"),
            DwarfError::MalformedLineProgram => String::from_str("malformed line program"),
            DwarfError::EntryTreeCorrupt => String::from_str("entry tree corrupt"),
            DwarfError::SubroutineNotFound => String::from_str("subroutine not found"),
            DwarfError::UnsupportedLocationOp => String::from_str("unsupported location operation"),
            DwarfError::TypeMismatch => String::from_str("type mismatch"),
        }
    }
}

} // verus!
