//! The integer decisions of the kernel launch loop: how many workgroups
//! are dispatched in each direction, where a step's spin samples are
//! written in the sample buffer, and on which steps results are read back.
use vstd::prelude::*;

verus! {

/// Threads per workgroup.
pub const WORKGROUP_SIZE: u32 = 256;

/// The largest workgroup count in the x direction of a dispatch.
pub const MAX_DISPATCH_X: u32 = 65535;

/// `ceil(a / b)`.
pub open spec fn ceil_div(a: int, b: int) -> int {
    (a + b - 1) / b
}

/// `ceil(a / b)` without overflow.
fn div_ceil(a: u32, b: u32) -> (q: u32)
    requires
        b > 0,
    ensures
        q as int == ceil_div(a as int, b as int),
{
    let q = a / b;
    let r = a % b;
    proof {
        vstd::arithmetic::div_mod::lemma_fundamental_div_mod(a as int, b as int);
        if r == 0 {
            assert(a + b - 1 == q * b + (b - 1)) by (nonlinear_arith) requires a == b * q + r, r == 0;
            vstd::arithmetic::div_mod::lemma_fundamental_div_mod_converse(a + b - 1, b as int, q as int, b - 1);
        } else {
            assert(a + b - 1 == (q + 1) * b + (r - 1) && q + 1 <= a) by (nonlinear_arith)
                requires a == b * q + r, r >= 1, b >= 1, q >= 0;
            vstd::arithmetic::div_mod::lemma_fundamental_div_mod_converse(a + b - 1, b as int, q + 1, r - 1);
        }
    }
    if r == 0 { q } else { q + 1 }
}

/// The workgroup counts `(x, y)` of a dispatch over `num_spins` spins:
/// `ceil(num_spins / 256)` workgroups, at most 65535 of them along x and
/// as many rows along y as are then needed. Thread `(px, py)` handles spin
/// `py * 256 * x + px`, and every spin has a thread.
pub fn dispatch_dimensions(num_spins: u32) -> (counts: (u32, u32))
    requires
        num_spins > 0,
    ensures
        ({
            let workgroups = ceil_div(num_spins as int, WORKGROUP_SIZE as int);
            &&& counts.0 as int == if workgroups < MAX_DISPATCH_X { workgroups } else { MAX_DISPATCH_X as int }
            &&& counts.1 as int == ceil_div(workgroups, counts.0 as int)
        }),
        counts.0 * WORKGROUP_SIZE <= u32::MAX,
        num_spins <= counts.0 * WORKGROUP_SIZE * counts.1,
{
    let num_workgroups = div_ceil(num_spins, WORKGROUP_SIZE);
    let cube_count_x = if num_workgroups < MAX_DISPATCH_X { num_workgroups } else { MAX_DISPATCH_X };
    proof {
        assert(num_workgroups > 0);
    }
    let cube_count_y = div_ceil(num_workgroups, cube_count_x);
    proof {
        let w = num_workgroups as int;
        let x = cube_count_x as int;
        let y = cube_count_y as int;
        vstd::arithmetic::div_mod::lemma_fundamental_div_mod(w + x - 1, x);
        assert(w <= x * y) by (nonlinear_arith)
            requires x > 0, y == (w + x - 1) / x, w + x - 1 == x * ((w + x - 1) / x) + (w + x - 1) % x,
                (w + x - 1) % x < x;
        vstd::arithmetic::div_mod::lemma_fundamental_div_mod(num_spins + 255, 256);
        assert(num_spins <= x * 256 * y) by (nonlinear_arith)
            requires w <= x * y, w == (num_spins + 255) / 256,
                num_spins + 255 == 256 * ((num_spins + 255) / 256) + (num_spins + 255) % 256,
                (num_spins + 255) % 256 < 256, x > 0;
    }
    (cube_count_x, cube_count_y)
}

/// What the launch loop does after step `iter` (counted from 1): the
/// position in the sample buffer where the step's samples are written,
/// and whether results are read back and reported. The buffer holds
/// `iters_per_plot` steps of `num_samples` samples and is read back on
/// every step that is a multiple of `iters_per_plot`.
pub fn iteration_actions(iter: u32, iters_per_plot: u32, num_samples: usize) -> (actions: (u32, bool))
    requires
        iter >= 1,
        iters_per_plot > 0,
        ((iter - 1) % (iters_per_plot as int)) * (num_samples as u32) <= u32::MAX,
    ensures
        actions.0 == ((iter - 1) % (iters_per_plot as int)) * (num_samples as u32),
        actions.1 == (iter % iters_per_plot == 0),
{
    let write_index = ((iter - 1) % iters_per_plot) * num_samples as u32;
    let output = iter % iters_per_plot == 0;
    (write_index, output)
}

/// The samples of every step land inside the sample buffer, and results
/// are read back exactly on the steps that fill its last slot, so every
/// read-back sees a full buffer.
pub proof fn lemma_sample_buffer(iter: int, iters_per_plot: int, num_samples: int)
    requires
        iter >= 1,
        iters_per_plot > 0,
        num_samples >= 0,
    ensures
        ((iter - 1) % iters_per_plot) * num_samples + num_samples <= iters_per_plot * num_samples,
        (iter % iters_per_plot == 0) <==> ((iter - 1) % iters_per_plot == iters_per_plot - 1),
{
    let slot = (iter - 1) % iters_per_plot;
    vstd::arithmetic::div_mod::lemma_fundamental_div_mod(iter - 1, iters_per_plot);
    assert(slot * num_samples + num_samples <= iters_per_plot * num_samples) by (nonlinear_arith)
        requires 0 <= slot < iters_per_plot, num_samples >= 0;
    let q = (iter - 1) / iters_per_plot;
    if slot == iters_per_plot - 1 {
        assert(iter == (q + 1) * iters_per_plot + 0) by (nonlinear_arith)
            requires iter - 1 == iters_per_plot * q + slot, slot == iters_per_plot - 1;
        vstd::arithmetic::div_mod::lemma_fundamental_div_mod_converse(iter, iters_per_plot, q + 1, 0);
    } else {
        assert(iter == q * iters_per_plot + (slot + 1)) by (nonlinear_arith)
            requires iter - 1 == iters_per_plot * q + slot;
        vstd::arithmetic::div_mod::lemma_fundamental_div_mod_converse(iter, iters_per_plot, q, slot + 1);
    }
}

} // verus!
