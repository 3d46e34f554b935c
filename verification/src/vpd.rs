//! Marker type for a verifiable-polynomial-delivery commitment scheme.
//! The scheme itself is an external collaborator of the protocol core and
//! carries no state here.

use vstd::prelude::*;

verus! {

/// Stands for the commitment side of the protocol in signatures that
/// will grow around it; holds nothing.
pub struct VPD {}

} // verus!
