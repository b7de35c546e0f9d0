//! Selection of the spins of one plotted cut through the lattice, and
//! their pairing with positions into plot points.
use vstd::prelude::*;
use crate::utils::cpuspinarray::{site_index, site_to_index};
use crate::visualisation::interpolategrid::Point;
use vstd::arithmetic::div_mod::lemma_fundamental_div_mod_converse;

verus! {

/// The spins of one c-plane layer: the `x_cells * y_cells * 4` sites of
/// `layer` in flat order, each as its three components.
pub fn c_cut_layer_spins<T: Copy>(spins: &[T], layer: usize, x_cells: usize, y_cells: usize) -> (separated: Vec<[T; 3]>)
    requires
        layer * x_cells <= usize::MAX,
        layer * x_cells * y_cells * 4 * 3 <= usize::MAX,
        x_cells * y_cells * 4 <= usize::MAX,
        x_cells * y_cells * 4 == 0
            || layer * x_cells * y_cells * 4 * 3 + 3 * (x_cells * y_cells * 4) <= spins@.len(),
    ensures
        separated@.len() == x_cells * y_cells * 4,
        forall|i: int, c: int| 0 <= i < separated@.len() && 0 <= c < 3 ==>
            #[trigger] separated@[i][c] == spins@[3 * site_index(layer as int, 0, 0, 0, x_cells as int, y_cells as int) + 3 * i + c],
{
    proof {
        assert(layer * x_cells * y_cells <= usize::MAX && layer * x_cells * y_cells * 4 <= usize::MAX
            && x_cells * y_cells <= usize::MAX) by (nonlinear_arith)
            requires
                layer * x_cells <= usize::MAX,
                layer * x_cells * y_cells * 4 * 3 <= usize::MAX,
                x_cells * y_cells * 4 <= usize::MAX,
                layer >= 0, x_cells >= 0, y_cells >= 0;
        assert(spins@.len() == spins.len());
    }
    let mut separated: Vec<[T; 3]> = Vec::new();
    let start_index = layer * x_cells * y_cells * 4 * 3;
    let spins_to_read = x_cells * y_cells * 4;
    let mut i: usize = 0;
    while i < spins_to_read
        invariant
            start_index == layer * x_cells * y_cells * 4 * 3,
            start_index == 3 * site_index(layer as int, 0, 0, 0, x_cells as int, y_cells as int),
            spins_to_read == x_cells * y_cells * 4,
            spins_to_read > 0 ==> start_index + 3 * spins_to_read <= spins@.len(),
            spins@.len() <= usize::MAX,
            i <= spins_to_read,
            separated@.len() == i,
            forall|j: int, c: int| 0 <= j < i && 0 <= c < 3 ==>
                #[trigger] separated@[j][c] == spins@[start_index + 3 * j + c],
        decreases spins_to_read - i,
    {
        separated.push([
            spins[start_index + 3 * i],
            spins[start_index + 3 * i + 1],
            spins[start_index + 3 * i + 2],
        ]);
        i += 1;
    }
    separated
}

/// The position in an a-cut listing of the site with unit-cell row `uc_y`,
/// c-axis layer `c_layer` and site `site`, for `c_layers` layers.
pub open spec fn a_cut_position(uc_y: int, c_layer: int, site: int, c_layers: int) -> int {
    (uc_y * c_layers + c_layer) * 4 + site
}

/// Every site of an a-cut through `c_layers` layers can be read: the
/// furthest one (last layer, last row, last site) lies inside the spins.
pub open spec fn a_cut_in_bounds(len: int, a_layer: int, x_cells: int, y_cells: int, c_layers: int) -> bool {
    y_cells == 0 || c_layers == 0 || ({
        let top = c_layers - 1;
        let m = site_index(top, a_layer, y_cells - 1, 3, x_cells, y_cells);
        &&& top * x_cells <= usize::MAX
        &&& a_layer * y_cells <= usize::MAX
        &&& 3 * m + 2 < len
    })
}

/// The spins of one a-plane (fixed unit-cell column `a_layer`): for each
/// unit-cell row, each of the `uc_dims[2] * 6` c-axis layers and each site,
/// in that nesting order, the three spin components.
pub fn a_cut_layer_spins<T: Copy>(spins: &[T], a_layer: usize, uc_dims: [usize; 3]) -> (separated: Vec<[T; 3]>)
    requires
        uc_dims[1] == 0 || uc_dims[2] * 6 <= usize::MAX,
        a_cut_in_bounds(spins@.len() as int, a_layer as int, uc_dims[0] as int, uc_dims[1] as int, uc_dims[2] * 6),
    ensures
        separated@.len() == uc_dims[1] * (uc_dims[2] * 6) * 4,
        forall|uc_y: int, c_layer: int, site: int, c: int|
            0 <= uc_y < uc_dims[1] && 0 <= c_layer < uc_dims[2] * 6 && 0 <= site < 4 && 0 <= c < 3 ==>
            #[trigger] separated@[a_cut_position(uc_y, c_layer, site, uc_dims[2] * 6)][c]
                == spins@[3 * site_index(c_layer, a_layer as int, uc_y, site, uc_dims[0] as int, uc_dims[1] as int) + c],
{
    let x_cells = uc_dims[0];
    let y_cells = uc_dims[1];
    if y_cells == 0 {
        return Vec::new();
    }
    let c_layers = uc_dims[2] * 6;
    let ghost top = c_layers - 1;
    proof {
        assert(spins@.len() == spins.len());
    }
    let mut separated: Vec<[T; 3]> = Vec::new();
    let mut uc_y: usize = 0;
    while uc_y < y_cells
        invariant
            x_cells == uc_dims[0],
            y_cells == uc_dims[1],
            c_layers == uc_dims[2] * 6,
            top == c_layers - 1,
            a_cut_in_bounds(spins@.len() as int, a_layer as int, x_cells as int, y_cells as int, c_layers as int),
            spins@.len() <= usize::MAX,
            uc_y <= y_cells,
            separated@.len() == uc_y * c_layers * 4,
            forall|uy: int, cl: int, s: int, c: int|
                0 <= uy < uc_y && 0 <= cl < c_layers && 0 <= s < 4 && 0 <= c < 3 ==>
                #[trigger] separated@[a_cut_position(uy, cl, s, c_layers as int)][c]
                    == spins@[3 * site_index(cl, a_layer as int, uy, s, x_cells as int, y_cells as int) + c],
        decreases y_cells - uc_y,
    {
        let mut c_layer: usize = 0;
        while c_layer < c_layers
            invariant
                x_cells == uc_dims[0],
                y_cells == uc_dims[1],
                c_layers == uc_dims[2] * 6,
                top == c_layers - 1,
                    a_cut_in_bounds(spins@.len() as int, a_layer as int, x_cells as int, y_cells as int, c_layers as int),
                spins@.len() <= usize::MAX,
                uc_y < y_cells,
                c_layer <= c_layers,
                separated@.len() == (uc_y * c_layers + c_layer) * 4,
                forall|uy: int, cl: int, s: int, c: int|
                    0 <= uy < uc_y && 0 <= cl < c_layers && 0 <= s < 4 && 0 <= c < 3 ==>
                    #[trigger] separated@[a_cut_position(uy, cl, s, c_layers as int)][c]
                        == spins@[3 * site_index(cl, a_layer as int, uy, s, x_cells as int, y_cells as int) + c],
                forall|cl: int, s: int, c: int|
                    0 <= cl < c_layer && 0 <= s < 4 && 0 <= c < 3 ==>
                    #[trigger] separated@[a_cut_position(uc_y as int, cl, s, c_layers as int)][c]
                        == spins@[3 * site_index(cl, a_layer as int, uc_y as int, s, x_cells as int, y_cells as int) + c],
            decreases c_layers - c_layer,
        {
            let mut site: usize = 0;
            while site < 4
                invariant
                    x_cells == uc_dims[0],
                    y_cells == uc_dims[1],
                    c_layers == uc_dims[2] * 6,
                    top == c_layers - 1,
                            a_cut_in_bounds(spins@.len() as int, a_layer as int, x_cells as int, y_cells as int, c_layers as int),
                    spins@.len() <= usize::MAX,
                    uc_y < y_cells,
                    c_layer < c_layers,
                    site <= 4,
                    separated@.len() == (uc_y * c_layers + c_layer) * 4 + site,
                    forall|uy: int, cl: int, s: int, c: int|
                        0 <= uy < uc_y && 0 <= cl < c_layers && 0 <= s < 4 && 0 <= c < 3 ==>
                        #[trigger] separated@[a_cut_position(uy, cl, s, c_layers as int)][c]
                            == spins@[3 * site_index(cl, a_layer as int, uy, s, x_cells as int, y_cells as int) + c],
                    forall|cl: int, s: int, c: int|
                        0 <= cl < c_layer && 0 <= s < 4 && 0 <= c < 3 ==>
                        #[trigger] separated@[a_cut_position(uc_y as int, cl, s, c_layers as int)][c]
                            == spins@[3 * site_index(cl, a_layer as int, uc_y as int, s, x_cells as int, y_cells as int) + c],
                    forall|s: int, c: int| 0 <= s < site && 0 <= c < 3 ==>
                        #[trigger] separated@[a_cut_position(uc_y as int, c_layer as int, s, c_layers as int)][c]
                            == spins@[3 * site_index(c_layer as int, a_layer as int, uc_y as int, s, x_cells as int, y_cells as int) + c],
                decreases 4 - site,
            {
                proof {
                    lemma_site_index_monotonic(c_layer as int, a_layer as int, uc_y as int, site as int,
                        top, y_cells - 1, 3, x_cells as int, y_cells as int);
                    assert(c_layer * x_cells <= top * x_cells) by (nonlinear_arith)
                        requires c_layer <= top, x_cells >= 0;
                }
                let index = site_to_index(c_layer, a_layer, uc_y, site, x_cells, y_cells);
                let ghost k = separated@.len() as int;
                separated.push([spins[3 * index], spins[3 * index + 1], spins[3 * index + 2]]);
                proof {
                    let cy = uc_y as int;
                    let cc = c_layer as int;
                    let cs = site as int;
                    let cn = c_layers as int;
                    assert(k == a_cut_position(cy, cc, cs, cn));
                    assert forall|uy: int, cl: int, s: int, c: int|
                        0 <= uy < uc_y && 0 <= cl < c_layers && 0 <= s < 4 && 0 <= c < 3 implies
                        #[trigger] separated@[a_cut_position(uy, cl, s, cn)][c]
                            == spins@[3 * site_index(cl, a_layer as int, uy, s, x_cells as int, y_cells as int) + c] by {
                        lemma_a_cut_order(uy, cl, s, cy, cc, cs, cn);
                    }
                    assert forall|cl: int, s: int, c: int|
                        0 <= cl < c_layer && 0 <= s < 4 && 0 <= c < 3 implies
                        #[trigger] separated@[a_cut_position(cy, cl, s, cn)][c]
                            == spins@[3 * site_index(cl, a_layer as int, cy, s, x_cells as int, y_cells as int) + c] by {
                        lemma_a_cut_order(cy, cl, s, cy, cc, cs, cn);
                    }
                    assert forall|s: int, c: int| 0 <= s < site + 1 && 0 <= c < 3 implies
                        #[trigger] separated@[a_cut_position(cy, cc, s, cn)][c]
                            == spins@[3 * site_index(cc, a_layer as int, cy, s, x_cells as int, y_cells as int) + c] by {
                        if s < site {
                            lemma_a_cut_order(cy, cc, s, cy, cc, cs, cn);
                        }
                    }
                }
                site += 1;
            }
            proof {
                assert((uc_y * c_layers + c_layer) * 4 + 4 == (uc_y * c_layers + c_layer + 1) * 4) by (nonlinear_arith);
            }
            c_layer += 1;
        }
        proof {
            assert(uc_y * c_layers + c_layers == (uc_y + 1) * c_layers) by (nonlinear_arith);
        }
        uc_y += 1;
    }
    separated
}

/// Earlier entries of an a-cut listing come first.
pub proof fn lemma_a_cut_order(uy: int, cl: int, s: int, uy2: int, cl2: int, s2: int, c_layers: int)
    requires
        0 <= uy <= uy2,
        0 <= cl < c_layers,
        0 <= cl2 < c_layers,
        0 <= s < 4,
        0 <= s2 < 4,
        uy < uy2 || (uy == uy2 && cl < cl2) || (uy == uy2 && cl == cl2 && s < s2),
    ensures
        0 <= a_cut_position(uy, cl, s, c_layers) < a_cut_position(uy2, cl2, s2, c_layers),
{
    assert(0 <= a_cut_position(uy, cl, s, c_layers) < a_cut_position(uy2, cl2, s2, c_layers)) by (nonlinear_arith)
        requires
            0 <= uy <= uy2,
            0 <= cl < c_layers,
            0 <= cl2 < c_layers,
            0 <= s < 4,
            0 <= s2 < 4,
            uy < uy2 || (uy == uy2 && cl < cl2) || (uy == uy2 && cl == cl2 && s < s2),
            a_cut_position(uy, cl, s, c_layers) == (uy * c_layers + cl) * 4 + s,
            a_cut_position(uy2, cl2, s2, c_layers) == (uy2 * c_layers + cl2) * 4 + s2,
    ;
}

/// The flat index grows with each coordinate of a site address.
pub proof fn lemma_site_index_monotonic(
    l1: int, ux1: int, uy1: int, s1: int,
    l2: int, uy2: int, s2: int,
    x_cells: int, y_cells: int,
)
    requires
        0 <= l1 <= l2,
        0 <= ux1,
        0 <= uy1 <= uy2,
        0 <= s1 <= s2,
        0 <= x_cells,
        0 <= y_cells,
    ensures
        0 <= site_index(l1, ux1, uy1, s1, x_cells, y_cells) <= site_index(l2, ux1, uy2, s2, x_cells, y_cells),
{
    assert(0 <= l1 * x_cells * y_cells * 4 <= l2 * x_cells * y_cells * 4) by (nonlinear_arith)
        requires 0 <= l1 <= l2, 0 <= x_cells, 0 <= y_cells;
    assert(0 <= ux1 * y_cells * 4) by (nonlinear_arith) requires 0 <= ux1, 0 <= y_cells;
}

/// Plot points of a c-plane cut: position `(x, y)` of each site and its
/// full spin vector.
pub fn make_c_cut_points<F: Copy>(layer_spins: &[[F; 3]], positions: &[[F; 3]]) -> (points: Vec<Point<F>>)
    requires
        layer_spins@.len() <= positions@.len(),
    ensures
        points@.len() == layer_spins@.len(),
        forall|i: int| 0 <= i < points@.len() ==> #[trigger] points@[i] == (Point {
            x: positions@[i][0],
            y: positions@[i][1],
            vx: layer_spins@[i][0],
            vy: layer_spins@[i][1],
            vz: layer_spins@[i][2],
        }),
{
    let mut points: Vec<Point<F>> = Vec::new();
    let mut i: usize = 0;
    while i < layer_spins.len()
        invariant
            layer_spins@.len() <= positions@.len(),
            i <= layer_spins@.len(),
            points@.len() == i,
            forall|j: int| 0 <= j < i ==> #[trigger] points@[j] == (Point {
                x: positions@[j][0],
                y: positions@[j][1],
                vx: layer_spins@[j][0],
                vy: layer_spins@[j][1],
                vz: layer_spins@[j][2],
            }),
        decreases layer_spins@.len() - i,
    {
        points.push(Point {
            x: positions[i][0],
            y: positions[i][1],
            vx: layer_spins[i][0],
            vy: layer_spins[i][1],
            vz: layer_spins[i][2],
        });
        i += 1;
    }
    points
}

/// The spin components shown as the arrow's in-plane and out-of-plane
/// parts of an a-cut plot: `(y, z, x)` when the arrows are reoriented,
/// `(x, y, z)` otherwise.
pub open spec fn a_cut_components(reorient_arrows: bool) -> (int, int, int) {
    if reorient_arrows { (1, 2, 0) } else { (0, 1, 2) }
}

/// Plot points of an a-plane cut: position `(y, z)` of each site, and its
/// spin components in the order that `a_cut_components` gives.
pub fn make_a_cut_points<F: Copy>(
    layer_spins: &[[F; 3]],
    positions: &[[F; 3]],
    reorient_arrows: bool,
) -> (points: Vec<Point<F>>)
    requires
        layer_spins@.len() <= positions@.len(),
    ensures
        points@.len() == layer_spins@.len(),
        forall|i: int| 0 <= i < points@.len() ==> #[trigger] points@[i] == ({
            let (a, b, c) = a_cut_components(reorient_arrows);
            Point {
                x: positions@[i][1],
                y: positions@[i][2],
                vx: layer_spins@[i][a],
                vy: layer_spins@[i][b],
                vz: layer_spins@[i][c],
            }
        }),
{
    let (vxi, vyi, vzi): (usize, usize, usize) = if reorient_arrows { (1, 2, 0) } else { (0, 1, 2) };
    let mut points: Vec<Point<F>> = Vec::new();
    let mut i: usize = 0;
    while i < layer_spins.len()
        invariant
            layer_spins@.len() <= positions@.len(),
            (vxi as int, vyi as int, vzi as int) == a_cut_components(reorient_arrows),
            i <= layer_spins@.len(),
            points@.len() == i,
            forall|j: int| 0 <= j < i ==> #[trigger] points@[j] == ({
                let (a, b, c) = a_cut_components(reorient_arrows);
                Point {
                    x: positions@[j][1],
                    y: positions@[j][2],
                    vx: layer_spins@[j][a],
                    vy: layer_spins@[j][b],
                    vz: layer_spins@[j][c],
                }
            }),
        decreases layer_spins@.len() - i,
    {
        points.push(Point {
            x: positions[i][1],
            y: positions[i][2],
            vx: layer_spins[i][vxi],
            vy: layer_spins[i][vyi],
            vz: layer_spins[i][vzi],
        });
        i += 1;
    }
    points
}

} // verus!
