//! The rule of the memory bridge.
//!
//! The bridge hands flat byte regions to a caller that cannot reach this
//! process's allocator. Every region is aligned to four bytes, the width of
//! a sample. A request is served only if its size, rounded up to that
//! alignment, still fits the signed pointer-sized range; a request beyond
//! that is a violation that the bridge cannot report and must not serve.

use vstd::prelude::*;

verus! {

/// The alignment of every region, in bytes.
pub const ALIGNMENT: usize = 4;

/// The size of a result record as the far side sees it: three fields of
/// four bytes each.
pub const RECORD_SIZE: usize = 12;

/// `size` rounded up to the next multiple of the alignment.
pub open spec fn rounded_up(size: nat) -> nat {
    ((size + 3) / 4) * 4
}

/// A region of `size` bytes can be asked for.
pub open spec fn spec_request_is_valid(size: usize) -> bool {
    rounded_up(size as nat) <= isize::MAX
}

/// Whether a region of `size` bytes can be asked for.
#[verifier::when_used_as_spec(spec_request_is_valid)]
pub fn request_is_valid(size: usize) -> (r: bool)
    ensures
        r == spec_request_is_valid(size),
{
    let limit: usize = isize::MAX as usize;
    size <= limit - 3
}

/// Rounding up reaches a multiple of the alignment, and the nearest one.
pub proof fn lemma_rounded_up(size: nat)
    ensures
        rounded_up(size) % 4 == 0,
        size <= rounded_up(size) < size + 4,
{
}

} // verus!
