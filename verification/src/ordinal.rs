//! Ordinals of numbers given as codes of sign and magnitude.
//!
//! A code is 64 bits wide: the highest bit is the sign, the other 63 bits
//! are the magnitude. The ordinal of a code is a signed integer that stands
//! among the ordinals where the code stands among the codes, so that
//! numbers in this form can be ordered, and the greatest of them found,
//! with integers alone.

use vstd::prelude::*;

verus! {

/// The sign bit of a code.
pub const SIGN: u64 = 0x8000_0000_0000_0000;

/// Whether the sign of a code is set.
pub open spec fn is_negative(code: u64) -> bool {
    code >= SIGN
}

/// The magnitude of a code.
pub open spec fn magnitude_of(code: u64) -> int {
    if code >= SIGN {
        code - SIGN
    } else {
        code as int
    }
}

/// Whether code `a` stands before code `b`: a negative code before a
/// positive one, positive codes by rising magnitude, negative codes by
/// falling magnitude.
pub open spec fn stands_before(a: u64, b: u64) -> bool {
    if is_negative(a) {
        !is_negative(b) || magnitude_of(a) > magnitude_of(b)
    } else {
        !is_negative(b) && magnitude_of(a) < magnitude_of(b)
    }
}

/// The ordinal of a code: the magnitude itself for a positive code, and
/// for a negative one the magnitude counted down from `-1`.
pub open spec fn ordinal_of(code: u64) -> int {
    if code >= SIGN {
        -1 - (code - SIGN)
    } else {
        code as int
    }
}

/// Ordinals stand as their codes do, and two codes share no ordinal.
pub proof fn lemma_ordinals_keep_order(a: u64, b: u64)
    ensures
        ordinal_of(a) < ordinal_of(b) <==> stands_before(a, b),
        ordinal_of(a) == ordinal_of(b) <==> a == b,
{
}

/// The ordinal of a code.
pub fn ordinal_from_code(code: u64) -> (r: i64)
    ensures
        r == ordinal_of(code),
{
    if code >= SIGN {
        -1 - ((code - SIGN) as i64)
    } else {
        code as i64
    }
}

/// The code that has the given ordinal.
pub fn code_from_ordinal(ordinal: i64) -> (r: u64)
    ensures
        ordinal_of(r) == ordinal,
{
    if ordinal < 0 {
        ((-1 - ordinal) as u64) + SIGN
    } else {
        ordinal as u64
    }
}

} // verus!
