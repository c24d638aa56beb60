//! The packed integer form of a parse-table action.

use vstd::prelude::*;

verus! {

/// The code of the accept action: the most negative `i64`.
pub const ACCEPT: i64 = -0x7fff_ffff_ffff_ffff - 1;

/// The code of the error action: the next-most-negative `i64`.
pub const ERROR: i64 = ACCEPT + 1;

/// Non-negative codes shift; the code is the target state.
pub open spec fn is_shift_code(code: i64) -> bool {
    0 <= code
}

/// Codes strictly between `ERROR` and zero reduce.
pub open spec fn is_reduce_code(code: i64) -> bool {
    ERROR < code < 0
}

pub open spec fn is_accept_code(code: i64) -> bool {
    code == ACCEPT
}

pub open spec fn is_error_code(code: i64) -> bool {
    code == ERROR
}

/// The production that a reduce code names: `-code - 1`.
pub open spec fn reduce_prod_of(code: i64) -> int {
    -code - 1
}

/// One entry of the action table, classified by the range its code falls in.
#[derive(Clone, Copy)]
pub struct Action(pub i64);

impl Action {
    pub fn is_shift(self) -> (r: bool)
        ensures
            r == is_shift_code(self.0),
    {
        0 <= self.0
    }

    pub fn shift_state(self) -> (r: usize)
        requires
            is_shift_code(self.0),
        ensures
            r == self.0 as usize,
    {
        #[verifier::truncate]
        (self.0 as usize)
    }

    pub fn is_reduce(self) -> (r: bool)
        ensures
            r == is_reduce_code(self.0),
    {
        ERROR < self.0 && self.0 < 0
    }

    pub fn reduce_prod_index(self) -> (r: usize)
        requires
            is_reduce_code(self.0),
        ensures
            r == reduce_prod_of(self.0) as usize,
    {
        #[verifier::truncate]
        ((-self.0 - 1) as usize)
    }

    pub fn is_accept(self) -> (r: bool)
        ensures
            r == is_accept_code(self.0),
    {
        self.0 == ACCEPT
    }

    pub fn is_error(self) -> (r: bool)
        ensures
            r == is_error_code(self.0),
    {
        self.0 == ERROR
    }
}

/// Every code falls in exactly one of the four classes.
pub proof fn lemma_classification_total_exclusive(code: i64)
    ensures
        is_shift_code(code) || is_reduce_code(code) || is_accept_code(code) || is_error_code(code),
        !(is_shift_code(code) && is_reduce_code(code)),
        !(is_shift_code(code) && is_accept_code(code)),
        !(is_shift_code(code) && is_error_code(code)),
        !(is_reduce_code(code) && is_accept_code(code)),
        !(is_reduce_code(code) && is_error_code(code)),
        !(is_accept_code(code) && is_error_code(code)),
{
}

} // verus!
