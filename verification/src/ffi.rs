//! Fixed-layout value types exchanged with the kernel hook.

use vstd::prelude::*;

verus! {

/// The hook's configuration-edit record. The hook side reserves a single
/// placeholder byte for now.
#[derive(Clone, Copy, Debug)]
#[allow(non_camel_case_types)]
pub struct edit_config {
    pub dummy: u8,
}

} // verus!
