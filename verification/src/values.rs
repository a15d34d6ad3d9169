//! Kinds of JSON values, and the errors of value-tree updates.
use vstd::prelude::*;

verus! {

/// Kinds of JSON values.
#[derive(Copy, Clone, Eq, PartialEq, Debug, Structural)]
pub enum ValueKind {
    Null,
    Bool,
    Num,
    Str,
    Array,
    Object,
}

/// Errors of updates to a value tree at a path.
#[derive(Debug, Copy, Clone, PartialEq, Eq, Structural)]
pub enum ZipperError {
    ExpectedObject,
    ExpectedArray,
    InvalidArrayIndex,
    ExpectedEmptyPath,
    ExpectedNonEmptyPath,
    ExpectedString,
}

/// The description of a value-tree update error.
pub open spec fn zipper_message(e: ZipperError) -> Seq<char> {
    match e {
        ZipperError::ExpectedObject => "expected an object at the current path"@,
        ZipperError::ExpectedArray => "expected an array at the current path"@,
        ZipperError::InvalidArrayIndex => "invalid array index"@,
        ZipperError::ExpectedEmptyPath => "operation requires an empty path"@,
        ZipperError::ExpectedNonEmptyPath => "operation would pop past the root"@,
        ZipperError::ExpectedString => "expected the root to be a string"@,
    }
}

impl ZipperError {
    /// The human-readable description of the error.
    pub fn message(&self) -> (r: &'static str)
        ensures
            r@ == zipper_message(*self),
    {
        match self {
            ZipperError::ExpectedObject => "expected an object at the current path",
            ZipperError::ExpectedArray => "expected an array at the current path",
            ZipperError::InvalidArrayIndex => "invalid array index",
            ZipperError::ExpectedEmptyPath => "operation requires an empty path",
            ZipperError::ExpectedNonEmptyPath => "operation would pop past the root",
            ZipperError::ExpectedString => "expected the root to be a string",
        }
    }
}

} // verus!
