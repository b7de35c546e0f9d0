//! The flattened layout of the spin lattice on the host.
//!
//! A site is addressed by its c-axis layer, the unit-cell position
//! `(uc_x, uc_y)` in the basal plane and one of the four sites that a layer
//! of a unit cell holds. The flat index runs site fastest, then `uc_y`, then
//! `uc_x`, then `layer`.
use vstd::prelude::*;
use vstd::arithmetic::div_mod::{
    lemma_fundamental_div_mod, lemma_multiply_divide_lt, lemma_fundamental_div_mod_converse,
};

verus! {

/// The flat index of a site, as a mathematical integer.
pub open spec fn site_index(layer: int, uc_x: int, uc_y: int, site: int, x_cells: int, y_cells: int) -> int {
    layer * x_cells * y_cells * 4 + uc_x * y_cells * 4 + uc_y * 4 + site
}

/// A site address whose in-layer coordinates lie inside the lattice.
pub open spec fn valid_site(layer: int, uc_x: int, uc_y: int, site: int, x_cells: int, y_cells: int) -> bool {
    &&& 0 <= layer
    &&& 0 <= uc_x < x_cells
    &&& 0 <= uc_y < y_cells
    &&& 0 <= site < 4
}

/// The flat index is the mixed-radix number `((layer * x + uc_x) * y + uc_y) * 4 + site`.
pub proof fn lemma_site_index_nested(layer: int, uc_x: int, uc_y: int, site: int, x_cells: int, y_cells: int)
    ensures
        site_index(layer, uc_x, uc_y, site, x_cells, y_cells)
            == ((layer * x_cells + uc_x) * y_cells + uc_y) * 4 + site,
{
    assert(layer * x_cells * y_cells * 4 + uc_x * y_cells * 4 + uc_y * 4 + site
        == ((layer * x_cells + uc_x) * y_cells + uc_y) * 4 + site) by (nonlinear_arith);
}

/// Decomposition of a flat index into its site address.
pub proof fn lemma_site_decomposition(index: int, x_cells: int, y_cells: int)
    requires
        0 <= index,
        0 < x_cells,
        0 < y_cells,
    ensures
        ({
            let c = x_cells * y_cells * 4;
            let layer = index / c;
            let uc_x = (index % c) / (y_cells * 4);
            let uc_y = ((index % c) % (y_cells * 4)) / 4;
            let site = ((index % c) % (y_cells * 4)) % 4;
            &&& valid_site(layer, uc_x, uc_y, site, x_cells, y_cells)
            &&& index == site_index(layer, uc_x, uc_y, site, x_cells, y_cells)
        }),
{
    let c = x_cells * y_cells * 4;
    let y4 = y_cells * 4;
    assert(c > 0 && c == y4 * x_cells) by (nonlinear_arith)
        requires c == x_cells * y_cells * 4, y4 == y_cells * 4, x_cells > 0, y_cells > 0;
    let layer = index / c;
    let rem = index % c;
    lemma_fundamental_div_mod(index, c);
    let uc_x = rem / y4;
    let rem2 = rem % y4;
    lemma_fundamental_div_mod(rem, y4);
    lemma_multiply_divide_lt(rem, y4, x_cells);
    let uc_y = rem2 / 4;
    let site = rem2 % 4;
    lemma_fundamental_div_mod(rem2, 4);
    lemma_multiply_divide_lt(rem2, 4, y_cells);
    assert(layer >= 0) by (nonlinear_arith) requires layer == index / c, index >= 0, c > 0;
    assert(index == site_index(layer, uc_x, uc_y, site, x_cells, y_cells)) by (nonlinear_arith)
        requires
            index == c * layer + rem,
            rem == y4 * uc_x + rem2,
            rem2 == 4 * uc_y + site,
            c == x_cells * y_cells * 4,
            y4 == y_cells * 4,
    ;
}

/// Two valid site addresses with the same flat index are the same address.
pub proof fn lemma_site_index_injective(
    l1: int, x1: int, y1: int, s1: int,
    l2: int, x2: int, y2: int, s2: int,
    x_cells: int, y_cells: int,
)
    requires
        valid_site(l1, x1, y1, s1, x_cells, y_cells),
        valid_site(l2, x2, y2, s2, x_cells, y_cells),
        site_index(l1, x1, y1, s1, x_cells, y_cells) == site_index(l2, x2, y2, s2, x_cells, y_cells),
    ensures
        l1 == l2 && x1 == x2 && y1 == y2 && s1 == s2,
{
    lemma_site_index_nested(l1, x1, y1, s1, x_cells, y_cells);
    lemma_site_index_nested(l2, x2, y2, s2, x_cells, y_cells);
    let a1 = (l1 * x_cells + x1) * y_cells + y1;
    let a2 = (l2 * x_cells + x2) * y_cells + y2;
    assert(a1 >= 0 && a2 >= 0) by (nonlinear_arith)
        requires a1 == (l1 * x_cells + x1) * y_cells + y1, a2 == (l2 * x_cells + x2) * y_cells + y2,
            l1 >= 0, l2 >= 0, x1 >= 0, x2 >= 0, y1 >= 0, y2 >= 0, x_cells > 0, y_cells > 0;
    lemma_fundamental_div_mod_converse(a1 * 4 + s1, 4, a1, s1);
    lemma_fundamental_div_mod_converse(a2 * 4 + s2, 4, a2, s2);
    let b1 = l1 * x_cells + x1;
    let b2 = l2 * x_cells + x2;
    lemma_fundamental_div_mod_converse(b1 * y_cells + y1, y_cells, b1, y1);
    lemma_fundamental_div_mod_converse(b2 * y_cells + y2, y_cells, b2, y2);
    lemma_fundamental_div_mod_converse(l1 * x_cells + x1, x_cells, l1, x1);
    lemma_fundamental_div_mod_converse(l2 * x_cells + x2, x_cells, l2, x2);
}

/// The site address of the flat index `index`: the layer, the unit cell
/// `(uc_x, uc_y)` and the site within the layer of that cell.
pub fn index_to_site(index: usize, x_cells: usize, y_cells: usize) -> (r: (usize, usize, usize, usize))
    requires
        0 < x_cells,
        0 < y_cells,
        x_cells * y_cells * 4 <= usize::MAX,
    ensures
        valid_site(r.0 as int, r.1 as int, r.2 as int, r.3 as int, x_cells as int, y_cells as int),
        index as int == site_index(r.0 as int, r.1 as int, r.2 as int, r.3 as int, x_cells as int, y_cells as int),
{
    proof {
        assert(x_cells * y_cells <= x_cells * y_cells * 4) by (nonlinear_arith)
            requires x_cells > 0, y_cells > 0;
        assert(y_cells * 4 <= x_cells * y_cells * 4) by (nonlinear_arith)
            requires x_cells > 0, y_cells > 0;
        lemma_site_decomposition(index as int, x_cells as int, y_cells as int);
    }
    let cells_per_layer = x_cells * y_cells * 4;

    let layer = index / cells_per_layer;
    let remainder = index % cells_per_layer;

    let uc_x = remainder / (y_cells * 4);
    let remainder = remainder % (y_cells * 4);

    let uc_y = remainder / 4;
    let site = remainder % 4;

    (layer, uc_x, uc_y, site)
}

/// The flat index of a site address (the inverse of [`index_to_site`]).
pub fn site_to_index(
    layer: usize,
    uc_x: usize,
    uc_y: usize,
    site: usize,
    x_cells: usize,
    y_cells: usize,
) -> (index: usize)
    requires
        layer * x_cells <= usize::MAX,
        uc_x * y_cells <= usize::MAX,
        site_index(layer as int, uc_x as int, uc_y as int, site as int, x_cells as int, y_cells as int)
            <= usize::MAX,
    ensures
        index as int == site_index(layer as int, uc_x as int, uc_y as int, site as int, x_cells as int, y_cells as int),
{
    proof {
        assert(layer * x_cells * y_cells <= usize::MAX) by (nonlinear_arith)
            requires
                layer * x_cells <= usize::MAX,
                layer * x_cells * y_cells * 4 + uc_x * y_cells * 4 + uc_y * 4 + site <= usize::MAX,
                uc_x * y_cells >= 0, uc_y >= 0, site >= 0, layer * x_cells >= 0, y_cells >= 0;
        assert(layer * x_cells * y_cells * 4 >= 0 && uc_x * y_cells * 4 >= 0) by (nonlinear_arith)
            requires layer >= 0, x_cells >= 0, y_cells >= 0, uc_x >= 0;
    }
    layer * x_cells * y_cells * 4
        + uc_x * y_cells * 4
        + uc_y * 4
        + site
}

/// The remainder of Rust's `%` on integers: truncated division, so the
/// result takes the sign of the dividend.
pub open spec fn rust_rem(a: int, b: int) -> int {
    let m = if b < 0 { -b } else { b };
    if a >= 0 { a % m } else { -((-a) % m) }
}

/// `(v % r + r) % r` with Rust's `%`.
pub open spec fn wrap_offset(v: int, r: int) -> int {
    rust_rem(rust_rem(v, r) + r, r)
}

/// For a positive modulus, `wrap_offset` is the mathematical residue of `v`.
pub proof fn lemma_wrap_offset_is_mod(v: int, r: int)
    requires
        r > 0,
    ensures
        wrap_offset(v, r) == v % r,
        0 <= wrap_offset(v, r) < r,
        -r < rust_rem(v, r) < r,
{
    if v >= 0 {
        let t = v % r;
        lemma_fundamental_div_mod(v, r);
        assert(rust_rem(v, r) == t);
        lemma_fundamental_div_mod_converse(t + r, r, 1, t);
    } else {
        let m = -v;
        let s = m % r;
        let q = m / r;
        lemma_fundamental_div_mod(m, r);
        assert(rust_rem(v, r) == -s);
        if s == 0 {
            lemma_fundamental_div_mod_converse(r, r, 1, 0);
            assert(v == r * (-q) + 0) by (nonlinear_arith) requires m == r * q + s, s == 0, v == -m;
            lemma_fundamental_div_mod_converse(v, r, -q, 0);
        } else {
            lemma_fundamental_div_mod_converse(r - s, r, 0, r - s);
            assert(v == (-q - 1) * r + (r - s)) by (nonlinear_arith) requires m == r * q + s, v == -m;
            lemma_fundamental_div_mod_converse(v, r, -q - 1, r - s);
        }
    }
}

/// The inputs on which [`use_offset`] computes without overflow: a range
/// that fits in `isize`, and intermediate values that stay in `isize`.
pub open spec fn offset_in_bounds(value: usize, offset: int, range: usize) -> bool {
    &&& 0 < range <= isize::MAX
    &&& isize::MIN <= (value as isize) + offset <= isize::MAX
    &&& rust_rem((value as isize) + offset, range as int) + range <= isize::MAX
}

/// What [`use_offset`] returns.
pub open spec fn periodic(value: usize, offset: int, range: usize) -> int {
    wrap_offset((value as isize) + offset, range as int)
}

/// Periodic wrap of `value + offset` into `[0, range)`.
///
/// `value` is taken as `isize` (an `as` cast, which wraps values above
/// `isize::MAX`) and the residue is computed as `(v % r + r) % r` with
/// Rust's truncating `%`. Where
/// `value` fits in `isize` the result is the residue of `value + offset`
/// modulo `range`.
pub fn use_offset(value: usize, offset: isize, range: usize) -> (res: usize)
    requires
        offset_in_bounds(value, offset as int, range),
    ensures
        res as int == periodic(value, offset as int, range),
        res < range,
        value <= isize::MAX ==> res as int == (value + offset) % (range as int),
{
    let r = range as isize;
    let v = value as isize + offset;
    proof {
        if value <= isize::MAX {
            assert(value as isize == value);
        }
        lemma_wrap_offset_is_mod(v as int, r as int);
    }
    ((v % r + r) % r) as usize
}

/// Stepping by `offset` and then by `-offset` returns every in-range value
/// to itself: periodic neighbours are mutual.
pub proof fn lemma_use_offset_inverse(value: usize, offset: isize, range: usize)
    requires
        value < range,
        offset_in_bounds(value, offset as int, range),
        offset_in_bounds(periodic(value, offset as int, range) as usize, -offset, range),
    ensures
        periodic(periodic(value, offset as int, range) as usize, -offset, range) == value,
{
    let r = range as int;
    lemma_wrap_offset_is_mod((value as isize) + offset, r);
    let w = periodic(value, offset as int, range);
    assert(value as isize == value);
    assert((w as usize) as isize == w);
    lemma_wrap_offset_is_mod(w - offset, r);
    vstd::arithmetic::div_mod::lemma_fundamental_div_mod(value + offset, r);
    let q = (value + offset) / r;
    assert(w - offset == (-q) * r + value) by (nonlinear_arith)
        requires w == (value + offset) % r, value + offset == r * q + (value + offset) % r;
    vstd::arithmetic::div_mod::lemma_fundamental_div_mod_converse(w - offset, r, -q, value as int);
}

/// The number of sites in a lattice of `uc_dims` unit cells (24 per cell).
pub open spec fn atom_count(uc_dims: [usize; 3]) -> int {
    uc_dims[0] * uc_dims[1] * uc_dims[2] * 24
}

/// The lattice size can be computed without overflow.
pub open spec fn atom_count_fits(uc_dims: [usize; 3]) -> bool {
    &&& uc_dims[0] * uc_dims[1] <= usize::MAX
    &&& uc_dims[0] * uc_dims[1] * uc_dims[2] <= usize::MAX
    &&& atom_count(uc_dims) <= usize::MAX
}

/// The atoms below `n` whose mask entry is 1, in ascending order.
pub open spec fn masked_prefix(mask: Seq<u32>, n: int) -> Seq<usize>
    decreases n,
{
    if n <= 0 {
        Seq::empty()
    } else if mask[n - 1] == 1 {
        masked_prefix(mask, n - 1).push((n - 1) as usize)
    } else {
        masked_prefix(mask, n - 1)
    }
}

/// The number of atoms below `n` whose mask entry is 1.
pub open spec fn masked_count(mask: Seq<u32>, n: int) -> int {
    masked_prefix(mask, n).len() as int
}

/// The number of lattice sites, `uc_dims[0] * uc_dims[1] * uc_dims[2] * 24`.
fn lattice_atoms(uc_dims: [usize; 3]) -> (atoms: usize)
    requires
        atom_count_fits(uc_dims),
    ensures
        atoms as int == atom_count(uc_dims),
{
    proof {
        assert(uc_dims[0] * uc_dims[1] * uc_dims[2] * 24 >= 0) by (nonlinear_arith)
            requires uc_dims[0] >= 0, uc_dims[1] >= 0, uc_dims[2] >= 0;
    }
    uc_dims[0] * uc_dims[1] * uc_dims[2] * 24
}

/// The sites of the lattice whose mask entry is 1, in ascending order:
/// the sites that receive a spin.
pub fn masked_atoms(uc_dims: [usize; 3], mask: &[u32]) -> (atoms: Vec<usize>)
    requires
        atom_count_fits(uc_dims),
        atom_count(uc_dims) <= mask@.len(),
    ensures
        atoms@ == masked_prefix(mask@, atom_count(uc_dims)),
{
    let n = lattice_atoms(uc_dims);
    let mut atoms: Vec<usize> = Vec::new();
    let mut atom: usize = 0;
    while atom < n
        invariant
            n as int == atom_count(uc_dims),
            n <= mask@.len(),
            atom <= n,
            atoms@ == masked_prefix(mask@, atom as int),
        decreases n - atom,
    {
        if mask[atom] == 1u32 {
            atoms.push(atom);
        }
        atom += 1;
    }
    atoms
}

/// A spin array for a masked lattice: each site whose mask entry is 1
/// receives the next of `vectors`, in ascending site order, every other
/// site `zero`. Also returns how many sites received a vector.
pub fn spin_array_from_vectors<T: Copy>(
    uc_dims: [usize; 3],
    mask: &[u32],
    zero: T,
    vectors: &[[T; 3]],
) -> (result: (Vec<T>, u32))
    requires
        atom_count_fits(uc_dims),
        3 * atom_count(uc_dims) <= usize::MAX,
        atom_count(uc_dims) <= mask@.len(),
        vectors@.len() == masked_count(mask@, atom_count(uc_dims)),
        masked_count(mask@, atom_count(uc_dims)) <= u32::MAX,
    ensures
        result.0@.len() == 3 * atom_count(uc_dims),
        result.1 as int == masked_count(mask@, atom_count(uc_dims)),
        forall|a: int, c: int| 0 <= a < atom_count(uc_dims) && 0 <= c < 3 ==>
            #[trigger] result.0@[3 * a + c] == if mask@[a] == 1 {
                vectors@[masked_count(mask@, a)][c]
            } else {
                zero
            },
{
    let n = lattice_atoms(uc_dims);
    let mut spins: Vec<T> = Vec::new();
    let mut trueatoms: u32 = 0;
    let mut atom: usize = 0;
    while atom < n
        invariant
            n as int == atom_count(uc_dims),
            3 * n <= usize::MAX,
            n <= mask@.len(),
            vectors@.len() == masked_count(mask@, n as int),
            masked_count(mask@, n as int) <= u32::MAX,
            atom <= n,
            trueatoms as int == masked_count(mask@, atom as int),
            spins@.len() == 3 * atom,
            forall|a: int, c: int| 0 <= a < atom && 0 <= c < 3 ==>
                #[trigger] spins@[3 * a + c] == if mask@[a] == 1 {
                    vectors@[masked_count(mask@, a)][c]
                } else {
                    zero
                },
        decreases n - atom,
    {
        proof {
            lemma_masked_count_monotonic(mask@, atom + 1, n as int);
        }
        if mask[atom] == 1u32 {
            let v = vectors[trueatoms as usize];
            spins.push(v[0]);
            spins.push(v[1]);
            spins.push(v[2]);
            trueatoms += 1;
        } else {
            spins.push(zero);
            spins.push(zero);
            spins.push(zero);
        }
        proof {
            assert forall|a: int, c: int| 0 <= a < atom + 1 && 0 <= c < 3 implies
                #[trigger] spins@[3 * a + c] == if mask@[a] == 1 {
                    vectors@[masked_count(mask@, a)][c]
                } else {
                    zero
                } by {
                if a < atom {
                    assert(3 * a + c < 3 * atom);
                } else {
                    assert(3 * a + c == 3 * atom + c);
                }
            }
        }
        atom += 1;
    }
    (spins, trueatoms)
}

/// The masked count does not decrease along the lattice.
pub proof fn lemma_masked_count_monotonic(mask: Seq<u32>, a: int, b: int)
    requires
        0 <= a <= b,
    ensures
        masked_count(mask, a) <= masked_count(mask, b),
    decreases b - a,
{
    if a < b {
        lemma_masked_count_monotonic(mask, a, b - 1);
    }
}

/// Writes a three-component vector into the spin of site `index`.
pub fn set_vector<T: Copy>(spin_array: &mut Vec<T>, index: usize, vector: [T; 3])
    requires
        3 * index + 2 < old(spin_array)@.len(),
    ensures
        final(spin_array)@ == old(spin_array)@
            .update(3 * index, vector[0])
            .update(3 * index + 1, vector[1])
            .update(3 * index + 2, vector[2]),
{
    let len = spin_array.len();
    assert(3 * index + 2 < len);
    spin_array.set(index * 3, vector[0]);
    spin_array.set(index * 3 + 1, vector[1]);
    spin_array.set(index * 3 + 2, vector[2]);
}

} // verus!
