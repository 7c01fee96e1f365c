//! Python-style sequence indexing, as used by `ScorecardScale[i]`.
use vstd::prelude::*;
use vstd::string::*;

verus! {

/// The position a Python index designates in a sequence of `len` items:
/// non-negative indices count from the front, negative ones from the back.
/// `None` when the index falls outside the sequence.
pub open spec fn python_position(index: int, len: int) -> Option<int> {
    let resolved = if index < 0 { index + len } else { index };
    if 0 <= resolved < len {
        Some(resolved)
    } else {
        None
    }
}

/// Error raised when an index falls outside the sequence.
#[derive(Debug, Clone, Copy, PartialEq, Eq)]
pub struct IndexOutOfRange {
    /// The index that was asked for.
    pub index: isize,
    /// The length of the sequence.
    pub len: usize,
}

/// Resolve a Python index (negative indices count from the end) against a
/// sequence of `len` items.
///
/// Returns the position in `0..len`, or `IndexOutOfRange` when
/// `index < -len` or `index >= len`.
pub fn resolve_python_index(index: isize, len: usize) -> (r: Result<usize, IndexOutOfRange>)
    requires
        len <= isize::MAX,
    ensures
        match r {
            Ok(pos) => python_position(index as int, len as int) == Some(pos as int),
            Err(e) => python_position(index as int, len as int) is None && e.index == index
                && e.len == len,
        },
        r is Ok <==> -(len as int) <= index < len,
        r matches Ok(pos) ==> pos < len && (index >= 0 ==> pos == index) && (index < 0 ==> pos
            + (-index) == len),
{
    let signed_len = len as isize;
    let resolved = if index < 0 {
        index + signed_len
    } else {
        index
    };
    if resolved < 0 || resolved >= signed_len {
        Err(IndexOutOfRange { index, len })
    } else {
        Ok(resolved as usize)
    }
}

impl IndexOutOfRange {
    /// The message the error is reported with.
    pub fn message(&self) -> (r: String)
        ensures
            r@ == "ScorecardScale index out of range"@,
    {
        String::from_str("ScorecardScale index out of range")
    }
}

} // verus!
