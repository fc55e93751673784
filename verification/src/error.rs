//! Errors reported by the runtime, the decoder and the encoder.

use vstd::prelude::*;

verus! {

/// The category of a failure.
#[derive(Debug, Clone, Copy, PartialEq, Eq, Structural)]
pub enum ErrorKind {
    /// The image has a bad magic or version, an unknown opcode or data tag,
    /// or ends before a field is complete.
    BadAssembly,
    /// A constant or an access does not fit the type it is used with.
    TypeError,
    /// A name (operation, function, variable, struct, module) is not known.
    Resolution,
    /// An address window does not lie inside the memory.
    OutOfBounds,
    /// The stack has no room for the bytes to push.
    StackOverflow,
    /// The stack holds fewer bytes than are to be popped.
    StackUnderflow,
    /// No free heap block is large enough.
    OutOfMemory,
    /// Source and destination of a stack move share bytes.
    OverlappingMove,
    /// The block to release lies inside a free block.
    DoubleFree,
    /// A region size is not a multiple of four bytes, or the sizes do not fit the address range.
    UnalignedRegionSize,
    /// The machine is not in the stage that the call needs.
    BadStage,
    /// The entry function is unknown, takes parameters or returns a value.
    BadEntry,
    /// No processor is there to run an operation.
    NoActiveProcessor,
    /// A failure that the host's processor reported.
    Host,
}

/// A failure with its category and a one-line message.
#[derive(Debug, Clone)]
pub struct SimpleError {
    pub kind: ErrorKind,
    pub message: String,
}

pub type SimpleResult<T> = Result<T, SimpleError>;

impl SimpleError {
    /// A failure reported by the host, with the given message.
    pub fn new(message: String) -> (e: Self)
        ensures
            e.kind == ErrorKind::Host,
            e.message == message,
    {
        SimpleError { kind: ErrorKind::Host, message }
    }

    /// A failure of the given category.
    pub fn of(kind: ErrorKind, message: &str) -> (e: Self)
        ensures
            e.kind == kind,
            e.message@ == message@,
    {
        SimpleError { kind, message: message.to_string() }
    }
}

/// A failure of the compiler's front end, with the place in the source text.
#[derive(Debug)]
pub struct CompilationError {
    pub message: String,
    pub location: (usize, usize),
    pub line: (usize, usize),
    pub column: (usize, usize),
    pub pretty: String,
}

} // verus!
