//! Memory management: the user address-space model and the kernel token.
use vstd::prelude::*;
use crate::task::Kernel;
use crate::task::task::{satp_token, token_of};

pub mod page_table;

pub use page_table::UserMemory;

verus! {

/// The token (`satp` value) of the kernel address space.
pub fn kernel_token(k: &Kernel) -> (r: usize)
    ensures
        r == satp_token(k.kernel_root_ppn),
{
    token_of(k.kernel_root_ppn)
}

} // verus!
