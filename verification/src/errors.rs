//! The errors of the allocator and of the runtime built on it.

use vstd::prelude::*;
use vstd::std_specs::convert::FromSpecImpl;
use crate::token::SourcePos;

verus! {

/// Why a block could not be had.
#[derive(Copy, Clone, Debug, PartialEq, Eq, Structural)]
pub enum BlockError {
    /// The size asked for, and with it the alignment, is no power of two.
    BadRequest,
    /// The address space has no room left for the block.
    OOM,
}

/// Why an allocation failed.
#[derive(Copy, Clone, Debug, PartialEq, Eq, Structural)]
pub enum AllocError {
    /// The request, most likely its size, cannot be served.
    BadRequest,
    /// A block was needed and could not be had.
    OOM,
}

impl From<BlockError> for AllocError {
    fn from(other: BlockError) -> (err: AllocError) {
        match other {
            BlockError::BadRequest => AllocError::BadRequest,
            BlockError::OOM => AllocError::OOM,
        }
    }
}

impl FromSpecImpl<BlockError> for AllocError {
    open spec fn obeys_from_spec() -> bool {
        true
    }

    open spec fn from_spec(other: BlockError) -> AllocError {
        match other {
            BlockError::BadRequest => AllocError::BadRequest,
            BlockError::OOM => AllocError::OOM,
        }
    }
}

/// What went wrong, with the reason where one is known.
#[derive(Debug, PartialEq)]
pub enum ErrorKind {
    IOError(String),
    LexerError(String),
    ParseError(String),
    EvalError(String),
    BadAllocationRequest,
    OutOfMemory,
    BoundsError,
    KeyError,
    UnhashableError,
    MutableBorrowError,
}

impl ErrorKind {
    /// The kind that stands for an allocator error.
    pub open spec fn of_alloc(err: AllocError) -> ErrorKind {
        match err {
            AllocError::OOM => ErrorKind::OutOfMemory,
            AllocError::BadRequest => ErrorKind::BadAllocationRequest,
        }
    }

    /// The kind that stands for a block error.
    pub open spec fn of_block(err: BlockError) -> ErrorKind {
        match err {
            BlockError::OOM => ErrorKind::OutOfMemory,
            BlockError::BadRequest => ErrorKind::BadAllocationRequest,
        }
    }

    /// The text that describes the kind.
    pub open spec fn text(self) -> Seq<char> {
        match self {
            ErrorKind::IOError(reason) => "IO Error: "@ + reason@,
            ErrorKind::LexerError(reason) => "Parse error: "@ + reason@,
            ErrorKind::ParseError(reason) => "Parse error: "@ + reason@,
            ErrorKind::EvalError(reason) => "Evaluation error: "@ + reason@,
            ErrorKind::OutOfMemory => "Out of memory!"@,
            ErrorKind::BadAllocationRequest => "An invalid memory size allocation was requested!"@,
            ErrorKind::BoundsError => "Indexing bounds error"@,
            ErrorKind::KeyError => "Key does not exist in Dict"@,
            ErrorKind::UnhashableError => "Attempt to access Dict with unhashable key"@,
            ErrorKind::MutableBorrowError => "Attempt to modify a container that is already mutably borrowed"@,
        }
    }
}

/// An error of the runtime: its kind, and where in the source it arose if that is known.
#[derive(Debug, PartialEq)]
pub struct RuntimeError {
    kind: ErrorKind,
    pos: Option<SourcePos>,
}

impl RuntimeError {
    /// The kind of the error.
    pub closed spec fn kind(self) -> ErrorKind {
        self.kind
    }

    /// The source position of the error, if it has one.
    pub closed spec fn pos(self) -> Option<SourcePos> {
        self.pos
    }

    pub fn new(kind: ErrorKind) -> (err: RuntimeError)
        ensures
            err.kind() == kind,
            err.pos() is None,
    {
        RuntimeError { kind: kind, pos: None }
    }

    pub fn with_pos(kind: ErrorKind, pos: SourcePos) -> (err: RuntimeError)
        ensures
            err.kind() == kind,
            err.pos() == Some(pos),
    {
        RuntimeError { kind: kind, pos: Some(pos) }
    }

    pub fn error_kind(&self) -> (kind: &ErrorKind)
        ensures
            *kind == self.kind(),
    {
        &self.kind
    }

    pub fn error_pos(&self) -> (pos: Option<SourcePos>)
        ensures
            pos == self.pos(),
    {
        self.pos
    }

    /// The kind of the error, which is given up for it.
    pub fn into_kind(self) -> (kind: ErrorKind)
        ensures
            kind == self.kind(),
    {
        self.kind
    }

    /// The message that describes the error to a reader.
    pub fn message(&self) -> (text: String)
        ensures
            text@ == self.kind().text(),
    {
        match &self.kind {
            ErrorKind::IOError(reason) => String::from_str("IO Error: ").concat(reason.as_str()),
            ErrorKind::LexerError(reason) => String::from_str("Parse error: ").concat(
                reason.as_str(),
            ),
            ErrorKind::ParseError(reason) => String::from_str("Parse error: ").concat(
                reason.as_str(),
            ),
            ErrorKind::EvalError(reason) => String::from_str("Evaluation error: ").concat(
                reason.as_str(),
            ),
            ErrorKind::OutOfMemory => String::from_str("Out of memory!"),
            ErrorKind::BadAllocationRequest => String::from_str(
                "An invalid memory size allocation was requested!",
            ),
            ErrorKind::BoundsError => String::from_str("Indexing bounds error"),
            ErrorKind::KeyError => String::from_str("Key does not exist in Dict"),
            ErrorKind::UnhashableError => String::from_str(
                "Attempt to access Dict with unhashable key",
            ),
            ErrorKind::MutableBorrowError => String::from_str(
                "Attempt to modify a container that is already mutably borrowed",
            ),
        }
    }
}

impl From<BlockError> for RuntimeError {
    fn from(other: BlockError) -> (err: RuntimeError) {
        match other {
            BlockError::OOM => RuntimeError::new(ErrorKind::OutOfMemory),
            BlockError::BadRequest => RuntimeError::new(ErrorKind::BadAllocationRequest),
        }
    }
}

impl FromSpecImpl<BlockError> for RuntimeError {
    open spec fn obeys_from_spec() -> bool {
        true
    }

    closed spec fn from_spec(other: BlockError) -> RuntimeError {
        RuntimeError { kind: ErrorKind::of_block(other), pos: None }
    }
}

impl From<AllocError> for RuntimeError {
    fn from(other: AllocError) -> (err: RuntimeError) {
        match other {
            AllocError::OOM => RuntimeError::new(ErrorKind::OutOfMemory),
            AllocError::BadRequest => RuntimeError::new(ErrorKind::BadAllocationRequest),
        }
    }
}

impl FromSpecImpl<AllocError> for RuntimeError {
    open spec fn obeys_from_spec() -> bool {
        true
    }

    closed spec fn from_spec(other: AllocError) -> RuntimeError {
        RuntimeError { kind: ErrorKind::of_alloc(other), pos: None }
    }
}

/// A block error turns into the runtime error of the matching kind, with no position.
pub proof fn lemma_from_block_error(other: BlockError)
    ensures
        <RuntimeError as vstd::std_specs::convert::FromSpec<BlockError>>::from_spec(other).kind() == ErrorKind::of_block(other),
        <RuntimeError as vstd::std_specs::convert::FromSpec<BlockError>>::from_spec(other).pos() is None,
{
}

/// An allocator error turns into the runtime error of the matching kind, with no position.
pub proof fn lemma_from_alloc_error(other: AllocError)
    ensures
        <RuntimeError as vstd::std_specs::convert::FromSpec<AllocError>>::from_spec(other).kind() == ErrorKind::of_alloc(other),
        <RuntimeError as vstd::std_specs::convert::FromSpec<AllocError>>::from_spec(other).pos() is None,
{
}

} // verus!
