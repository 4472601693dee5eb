//! The catalog of operations that the rewriter knows, each with the name
//! under which it appears in source text.
use vstd::prelude::*;

verus! {

/// The operations that the rewriter recognizes by name.
///
/// `SetVecCapacity`, `ReserveVec` and `WriteVec` only mark statements around
/// an `unsafe` block; the others are the unchecked operations that get
/// rewritten.
#[derive(Clone, Copy, Debug, PartialEq, Eq, Structural)]
pub enum UnsafePattern {
    /// A buffer built with a requested capacity.
    SetVecCapacity,
    /// More capacity reserved on an existing buffer.
    ReserveVec,
    /// A write that fills a whole buffer.
    WriteVec,
    /// The length of a buffer set without initializing it.
    UnitializedVec,
    /// A raw copy between two places of one buffer.
    CopyWithin,
    /// Unchecked shared access to an element.
    GetUncheck,
    /// Unchecked mutable access to an element.
    GetUncheckMut,
    /// A raw copy between two buffers.
    CopyNonOverlap,
    /// A C string built from bytes without validation.
    CStringFromVec,
    /// The length of a C string measured by the C library.
    CStringLength,
    /// Bytes taken as text without validation.
    BytesToUTFString,
    /// A value reinterpreted as another type.
    TransmuteTo,
}

impl UnsafePattern {
    /// The name under which the operation appears in source text.
    pub open spec fn signature(self) -> Seq<char> {
        match self {
            UnsafePattern::SetVecCapacity => "with_capacity"@,
            UnsafePattern::ReserveVec => "reserve"@,
            UnsafePattern::WriteVec => "write"@,
            UnsafePattern::UnitializedVec => "set_len"@,
            UnsafePattern::CopyWithin => "ptr::copy"@,
            UnsafePattern::GetUncheck => "get_unchecked"@,
            UnsafePattern::GetUncheckMut => "get_unchecked_mut"@,
            UnsafePattern::CopyNonOverlap => "ptr::copy_nonoverlapping"@,
            UnsafePattern::CStringFromVec => "CString::from_vec_unchecked"@,
            UnsafePattern::CStringLength => "libc::strlen"@,
            UnsafePattern::BytesToUTFString => "str::from_utf8_unchecked"@,
            UnsafePattern::TransmuteTo => "mem::transmute"@,
        }
    }

    /// The name under which the operation appears in source text.
    pub fn as_str(&self) -> (r: &'static str)
        ensures
            r@ == self.signature(),
    {
        match self {
            UnsafePattern::SetVecCapacity => "with_capacity",
            UnsafePattern::ReserveVec => "reserve",
            UnsafePattern::WriteVec => "write",
            UnsafePattern::UnitializedVec => "set_len",
            UnsafePattern::CopyWithin => "ptr::copy",
            UnsafePattern::GetUncheck => "get_unchecked",
            UnsafePattern::GetUncheckMut => "get_unchecked_mut",
            UnsafePattern::CopyNonOverlap => "ptr::copy_nonoverlapping",
            UnsafePattern::CStringFromVec => "CString::from_vec_unchecked",
            UnsafePattern::CStringLength => "libc::strlen",
            UnsafePattern::BytesToUTFString => "str::from_utf8_unchecked",
            UnsafePattern::TransmuteTo => "mem::transmute",
        }
    }
}

/// The declared types that a reinterpreted value can be rewritten for.
#[derive(Clone, Copy, Debug, PartialEq, Eq, Structural)]
pub enum TargetTypes {
    /// Borrowed text.
    String,
}

impl TargetTypes {
    /// The type as it is written in a declaration.
    pub open spec fn written(self) -> Seq<char> {
        match self {
            TargetTypes::String => "&str"@,
        }
    }

    /// The type as it is written in a declaration.
    pub fn as_str(&self) -> (r: &'static str)
        ensures
            r@ == self.written(),
    {
        match self {
            TargetTypes::String => "&str",
        }
    }
}

} // verus!
