//! Lithography masks: which lattice sites carry a spin.
use vstd::prelude::*;
use crate::utils::cpuspinarray::{atom_count, atom_count_fits};

verus! {

/// The mask that allows every site of a lattice of `uc_dims` unit cells.
pub fn allow_all_mask(uc_dims: [usize; 3]) -> (mask: Vec<u32>)
    requires
        atom_count_fits(uc_dims),
    ensures
        mask@.len() == atom_count(uc_dims),
        forall|a: int| 0 <= a < mask@.len() ==> #[trigger] mask@[a] == 1,
{
    proof {
        assert(uc_dims[0] * uc_dims[1] * uc_dims[2] * 24 >= 0) by (nonlinear_arith)
            requires uc_dims[0] >= 0, uc_dims[1] >= 0, uc_dims[2] >= 0;
    }
    vec![1u32; uc_dims[0] * uc_dims[1] * uc_dims[2] * 24]
}

} // verus!
