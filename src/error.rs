use vstd::prelude::*;

verus! {

/// Every way in which a debugger command can fail.
#[derive(Clone, Copy, Debug, PartialEq, Eq, Structural)]
pub enum DebugError {
    /// A command that needs a binary ran before `load`.
    NoBinaryLoaded,
    /// A command that needs a live child ran before `run`.
    NoProgramRunning,
    /// `run` was asked for with no breakpoint registered.
    NoBreakpoints,
    /// A breakpoint position without the `:` between file and line.
    MissingColon,
    /// A breakpoint position whose line is not a decimal `u64`.
    InvalidLineNumber,
    /// No line-program row carries the address that was asked for.
    SourceNotFound,
    /// No variable entry carries the name that was asked for.
    VariableNotFound,
    /// The variable's type could not be determined.
    TypeNotFound,
    /// The variable's type is not a base type.
    NotBaseType,
    /// The base type's encoding is none of boolean, float, signed, unsigned.
    UnsupportedBaseType,
    /// A type attribute is stored in a form this resolver does not read.
    MalformedType,
    /// The variable's location is a location list.
    LocationListUnsupported,
    /// The variable's location is neither an expression nor a location list.
    UnsupportedLocationForm,
    /// The expression asked for something other than the frame base.
    UnsupportedExpression,
    /// The frame base was asked for, but no enclosing subprogram has one.
    NoFrameBase,
    /// The frame base is not a single register.
    FrameBaseNotRegister,
    /// The variable's location does not evaluate to a memory address.
    LocationNotAddress,
    /// A DWARF register number outside the x86-64 register file.
    InvalidRegister,
    /// An address translation fell outside the 64-bit address space.
    AddressOutOfRange,
    /// The child exited while the debugger waited for it to stop.
    ChildExited,
}

impl DebugError {
    /// The text shown to the user for this error.
    pub fn message(&self) -> &'static str {
        match self {
            DebugError::NoBinaryLoaded => "Please load a binary first",
            DebugError::NoProgramRunning => "You need to run a program first",
            DebugError::NoBreakpoints => "Please set at least one breakpoint first",
            DebugError::MissingColon => "Missing :",
            DebugError::InvalidLineNumber => "Couldn't parse line number",
            DebugError::SourceNotFound => "Couldn't find the source code for the address",
            DebugError::VariableNotFound => "Couldn't find the variable",
            DebugError::TypeNotFound => "Couldn't find the type of the variable",
            DebugError::NotBaseType => "Only primitive types are supported",
            DebugError::UnsupportedBaseType => "Unsupported base type",
            DebugError::MalformedType => "Type attribute stored in an unexpected form",
            DebugError::LocationListUnsupported => "Location lists are not supported for variables",
            DebugError::UnsupportedLocationForm => "Unrecognized variable location info",
            DebugError::UnsupportedExpression => "Location expression needs unsupported context",
            DebugError::NoFrameBase => "No enclosing function provides a frame base",
            DebugError::FrameBaseNotRegister => "Frame base not stored in a register",
            DebugError::LocationNotAddress => "Variable location is not a memory address",
            DebugError::InvalidRegister => "Invalid register number",
            DebugError::AddressOutOfRange => "Address outside the address space",
            DebugError::ChildExited => "Child exited",
        }
    }
}

} // verus!
