//! The pair interactions of a site and their packing into the flat arrays
//! that the GPU kernel indexes.
use vstd::prelude::*;

verus! {

/// A 3x3 exchange tensor, row by row.
pub struct ExchangeTensor<T> {
    pub jxx: T,
    pub jxy: T,
    pub jxz: T,
    pub jyx: T,
    pub jyy: T,
    pub jyz: T,
    pub jzx: T,
    pub jzy: T,
    pub jzz: T,
}

/// One interaction of a site with a neighbour: where the neighbour is,
/// relative to the site, and the exchange tensor of the bond.
pub struct Interaction<T> {
    pub layer_offset: i32,
    pub uc_x_offset: i32,
    pub uc_y_offset: i32,
    pub pair_site: u32,
    pub exchange_tensor: ExchangeTensor<T>,
}

/// The interactions of all sites, one array per field: for layer `l`,
/// site `s` and pair `p`, entry `(l * 4 + s) * n + p`, where `n` is the
/// number of interactions per site.
pub struct PackedInteractions<T> {
    pub layer_offset: Vec<i32>,
    pub uc_x_offset: Vec<i32>,
    pub uc_y_offset: Vec<i32>,
    pub pair_site: Vec<u32>,
    pub jxx: Vec<T>,
    pub jxy: Vec<T>,
    pub jxz: Vec<T>,
    pub jyx: Vec<T>,
    pub jyy: Vec<T>,
    pub jyz: Vec<T>,
    pub jzx: Vec<T>,
    pub jzy: Vec<T>,
    pub jzz: Vec<T>,
}

/// A tensor with `energy` on the diagonal and the off-diagonal entries of
/// `tensor` kept.
pub open spec fn with_symmetric_exchange<T>(tensor: ExchangeTensor<T>, energy: T) -> ExchangeTensor<T> {
    ExchangeTensor { jxx: energy, jyy: energy, jzz: energy, ..tensor }
}

/// Sets the diagonal of the exchange tensor to `energy`.
pub fn apply_symmetric_exchange<T: Copy>(tensor: &mut ExchangeTensor<T>, energy: T)
    ensures
        *final(tensor) == with_symmetric_exchange(*old(tensor), energy),
{
    tensor.jxx = energy;
    tensor.jyy = energy;
    tensor.jzz = energy;
}

/// The 27 unit-cell offsets `[i, j, k]` with each coordinate in
/// `{-1, 0, 1}`, `i` slowest and `k` fastest (the zero offset included).
pub fn unit_cell_neighbour_offsets() -> (offsets: Vec<[i32; 3]>)
    ensures
        offsets@.len() == 27,
        forall|n: int| 0 <= n < 27 ==> {
            &&& (#[trigger] offsets@[n])[0] == n / 9 - 1
            &&& offsets@[n][1] == (n / 3) % 3 - 1
            &&& offsets@[n][2] == n % 3 - 1
        },
{
    let mut uc_neighbour_offsets: Vec<[i32; 3]> = Vec::new();
    let mut i: i32 = -1;
    while i < 2
        invariant
            -1 <= i <= 2,
            uc_neighbour_offsets@.len() == 9 * (i + 1),
            forall|n: int| 0 <= n < uc_neighbour_offsets@.len() ==> {
                &&& (#[trigger] uc_neighbour_offsets@[n])[0] == n / 9 - 1
                &&& uc_neighbour_offsets@[n][1] == (n / 3) % 3 - 1
                &&& uc_neighbour_offsets@[n][2] == n % 3 - 1
            },
        decreases 2 - i,
    {
        let mut j: i32 = -1;
        while j < 2
            invariant
                -1 <= i < 2,
                -1 <= j <= 2,
                uc_neighbour_offsets@.len() == 9 * (i + 1) + 3 * (j + 1),
                forall|n: int| 0 <= n < uc_neighbour_offsets@.len() ==> {
                    &&& (#[trigger] uc_neighbour_offsets@[n])[0] == n / 9 - 1
                    &&& uc_neighbour_offsets@[n][1] == (n / 3) % 3 - 1
                    &&& uc_neighbour_offsets@[n][2] == n % 3 - 1
                },
            decreases 2 - j,
        {
            let mut k: i32 = -1;
            while k < 2
                invariant
                    -1 <= i < 2,
                    -1 <= j < 2,
                    -1 <= k <= 2,
                    uc_neighbour_offsets@.len() == 9 * (i + 1) + 3 * (j + 1) + (k + 1),
                    forall|n: int| 0 <= n < uc_neighbour_offsets@.len() ==> {
                        &&& (#[trigger] uc_neighbour_offsets@[n])[0] == n / 9 - 1
                        &&& uc_neighbour_offsets@[n][1] == (n / 3) % 3 - 1
                        &&& uc_neighbour_offsets@[n][2] == n % 3 - 1
                    },
                decreases 2 - k,
            {
                let ghost n = uc_neighbour_offsets@.len() as int;
                assert(n / 9 == i + 1 && (n / 3) % 3 == j + 1 && n % 3 == k + 1);
                uc_neighbour_offsets.push([i, j, k]);
                k += 1;
            }
            j += 1;
        }
        i += 1;
    }
    uc_neighbour_offsets
}

/// The interactions of the first `groups` (layer, site) groups, the first
/// `n` of each, in packing order: group `g` is layer `g / 4`, site `g % 4`.
pub open spec fn packed_order<T>(interactions: [[Vec<Interaction<T>>; 4]; 6], n: int, groups: int) -> Seq<Interaction<T>>
    decreases groups,
{
    if groups <= 0 {
        Seq::empty()
    } else {
        packed_order(interactions, n, groups - 1)
            + interactions[(groups - 1) / 4][(groups - 1) % 4]@.take(n)
    }
}

/// Entry `g * n + p` of the packing order is interaction `p` of group `g`.
pub proof fn lemma_packed_order<T>(interactions: [[Vec<Interaction<T>>; 4]; 6], n: int, groups: int)
    requires
        0 <= n,
        0 <= groups <= 24,
        forall|l: int, s: int| 0 <= l < 6 && 0 <= s < 4 ==> (#[trigger] interactions[l][s])@.len() >= n,
    ensures
        packed_order(interactions, n, groups).len() == groups * n,
        forall|g: int, p: int| 0 <= g < groups && 0 <= p < n ==>
            #[trigger] packed_order(interactions, n, groups)[g * n + p] == interactions[g / 4][g % 4]@[p],
    decreases groups,
{
    if groups > 0 {
        lemma_packed_order(interactions, n, groups - 1);
        let before = packed_order(interactions, n, groups - 1);
        let last = interactions[(groups - 1) / 4][(groups - 1) % 4]@.take(n);
        assert(before.len() == (groups - 1) * n);
        assert((groups - 1) * n + n == groups * n) by (nonlinear_arith);
        assert forall|g: int, p: int| 0 <= g < groups && 0 <= p < n implies
            #[trigger] packed_order(interactions, n, groups)[g * n + p] == interactions[g / 4][g % 4]@[p] by {
            if g < groups - 1 {
                assert(g * n + p < (groups - 1) * n) by (nonlinear_arith)
                    requires g < groups - 1, p < n, 0 <= g, 0 <= p;
                assert(g * n + p >= 0) by (nonlinear_arith) requires g >= 0, p >= 0, n >= 0;
            } else {
                assert(g * n + p - (groups - 1) * n == p);
            }
        }
    }
}

/// Every array of `packed` holds the field of `order` at each position.
pub open spec fn packs<T>(packed: PackedInteractions<T>, order: Seq<Interaction<T>>) -> bool {
    &&& packed.layer_offset@.len() == order.len()
    &&& packed.uc_x_offset@.len() == order.len()
    &&& packed.uc_y_offset@.len() == order.len()
    &&& packed.pair_site@.len() == order.len()
    &&& packed.jxx@.len() == order.len()
    &&& packed.jxy@.len() == order.len()
    &&& packed.jxz@.len() == order.len()
    &&& packed.jyx@.len() == order.len()
    &&& packed.jyy@.len() == order.len()
    &&& packed.jyz@.len() == order.len()
    &&& packed.jzx@.len() == order.len()
    &&& packed.jzy@.len() == order.len()
    &&& packed.jzz@.len() == order.len()
    &&& forall|k: int| 0 <= k < order.len() ==> {
        &&& packed.layer_offset@[k] == (#[trigger] order[k]).layer_offset
        &&& packed.uc_x_offset@[k] == order[k].uc_x_offset
        &&& packed.uc_y_offset@[k] == order[k].uc_y_offset
        &&& packed.pair_site@[k] == order[k].pair_site
        &&& packed.jxx@[k] == order[k].exchange_tensor.jxx
        &&& packed.jxy@[k] == order[k].exchange_tensor.jxy
        &&& packed.jxz@[k] == order[k].exchange_tensor.jxz
        &&& packed.jyx@[k] == order[k].exchange_tensor.jyx
        &&& packed.jyy@[k] == order[k].exchange_tensor.jyy
        &&& packed.jyz@[k] == order[k].exchange_tensor.jyz
        &&& packed.jzx@[k] == order[k].exchange_tensor.jzx
        &&& packed.jzy@[k] == order[k].exchange_tensor.jzy
        &&& packed.jzz@[k] == order[k].exchange_tensor.jzz
    }
}

/// Each array of a packing holds, at every position, the field of the same
/// name of the interaction at that position: the four addressing arrays
/// their own field, and each of the nine tensor arrays the tensor entry it
/// is named after.
pub proof fn lemma_packs_fields<T>(packed: PackedInteractions<T>, order: Seq<Interaction<T>>)
    requires
        packs(packed, order),
    ensures
        packed.layer_offset@.len() == order.len(),
        packed.jxy@.len() == order.len(),
        packed.jyx@.len() == order.len(),
        forall|k: int| 0 <= k < order.len() ==> {
            &&& packed.layer_offset@[k] == (#[trigger] order[k]).layer_offset
            &&& packed.uc_x_offset@[k] == order[k].uc_x_offset
            &&& packed.uc_y_offset@[k] == order[k].uc_y_offset
            &&& packed.pair_site@[k] == order[k].pair_site
            &&& packed.jxx@[k] == order[k].exchange_tensor.jxx
            &&& packed.jxy@[k] == order[k].exchange_tensor.jxy
            &&& packed.jxz@[k] == order[k].exchange_tensor.jxz
            &&& packed.jyx@[k] == order[k].exchange_tensor.jyx
            &&& packed.jyy@[k] == order[k].exchange_tensor.jyy
            &&& packed.jyz@[k] == order[k].exchange_tensor.jyz
            &&& packed.jzx@[k] == order[k].exchange_tensor.jzx
            &&& packed.jzy@[k] == order[k].exchange_tensor.jzy
            &&& packed.jzz@[k] == order[k].exchange_tensor.jzz
        },
{
}

/// Appends one interaction to every array.
fn push_interaction<T: Copy>(packed: &mut PackedInteractions<T>, entry: &Interaction<T>, order: Ghost<Seq<Interaction<T>>>)
    requires
        packs(*old(packed), order@),
    ensures
        packs(*final(packed), order@.push(*entry)),
{
    packed.layer_offset.push(entry.layer_offset);
    packed.uc_x_offset.push(entry.uc_x_offset);
    packed.uc_y_offset.push(entry.uc_y_offset);
    packed.pair_site.push(entry.pair_site);
    packed.jxx.push(entry.exchange_tensor.jxx);
    packed.jxy.push(entry.exchange_tensor.jxy);
    packed.jxz.push(entry.exchange_tensor.jxz);
    packed.jyx.push(entry.exchange_tensor.jyx);
    packed.jyy.push(entry.exchange_tensor.jyy);
    packed.jyz.push(entry.exchange_tensor.jyz);
    packed.jzx.push(entry.exchange_tensor.jzx);
    packed.jzy.push(entry.exchange_tensor.jzy);
    packed.jzz.push(entry.exchange_tensor.jzz);
    proof {
        let o = order@.push(*entry);
        assert forall|k: int| 0 <= k < o.len() implies packed.layer_offset@[k] == (#[trigger] o[k]).layer_offset by {
            if k < order@.len() {
                assert(o[k] == order@[k]);
            }
        }
    }
}

/// Packs the interactions into one array per field, group by group
/// (layer-major, then site), taking from each site as many interactions
/// as layer 0, site 0 has.
pub fn pack_to_arrays<T: Copy>(interactions: [[Vec<Interaction<T>>; 4]; 6]) -> (packed: PackedInteractions<T>)
    requires
        forall|l: int, s: int| 0 <= l < 6 && 0 <= s < 4 ==>
            (#[trigger] interactions[l][s])@.len() >= interactions[0][0]@.len(),
    ensures
        packs(packed, packed_order(interactions, interactions[0][0]@.len() as int, 24)),
        packed.layer_offset@.len() == 24 * interactions[0][0]@.len(),
        packed.uc_x_offset@.len() == 24 * interactions[0][0]@.len(),
        packed.uc_y_offset@.len() == 24 * interactions[0][0]@.len(),
        packed.pair_site@.len() == 24 * interactions[0][0]@.len(),
        packed.jxx@.len() == 24 * interactions[0][0]@.len(),
        packed.jxy@.len() == 24 * interactions[0][0]@.len(),
        packed.jxz@.len() == 24 * interactions[0][0]@.len(),
        packed.jyx@.len() == 24 * interactions[0][0]@.len(),
        packed.jyy@.len() == 24 * interactions[0][0]@.len(),
        packed.jyz@.len() == 24 * interactions[0][0]@.len(),
        packed.jzx@.len() == 24 * interactions[0][0]@.len(),
        packed.jzy@.len() == 24 * interactions[0][0]@.len(),
        packed.jzz@.len() == 24 * interactions[0][0]@.len(),
        forall|l: int, s: int, p: int| 0 <= l < 6 && 0 <= s < 4 && 0 <= p < interactions[0][0]@.len() ==> ({
            let n = interactions[0][0]@.len() as int;
            &&& packed.layer_offset@[(l * 4 + s) * n + p] == (#[trigger] interactions[l][s]@[p]).layer_offset
            &&& packed.uc_x_offset@[(l * 4 + s) * n + p] == interactions[l][s]@[p].uc_x_offset
            &&& packed.uc_y_offset@[(l * 4 + s) * n + p] == interactions[l][s]@[p].uc_y_offset
            &&& packed.pair_site@[(l * 4 + s) * n + p] == interactions[l][s]@[p].pair_site
                &&& packed.jxx@[(l * 4 + s) * n + p] == interactions[l][s]@[p].exchange_tensor.jxx
                &&& packed.jxy@[(l * 4 + s) * n + p] == interactions[l][s]@[p].exchange_tensor.jxy
                &&& packed.jxz@[(l * 4 + s) * n + p] == interactions[l][s]@[p].exchange_tensor.jxz
                &&& packed.jyx@[(l * 4 + s) * n + p] == interactions[l][s]@[p].exchange_tensor.jyx
                &&& packed.jyy@[(l * 4 + s) * n + p] == interactions[l][s]@[p].exchange_tensor.jyy
                &&& packed.jyz@[(l * 4 + s) * n + p] == interactions[l][s]@[p].exchange_tensor.jyz
                &&& packed.jzx@[(l * 4 + s) * n + p] == interactions[l][s]@[p].exchange_tensor.jzx
                &&& packed.jzy@[(l * 4 + s) * n + p] == interactions[l][s]@[p].exchange_tensor.jzy
                &&& packed.jzz@[(l * 4 + s) * n + p] == interactions[l][s]@[p].exchange_tensor.jzz
        }),
{
    let mut packed = PackedInteractions {
        layer_offset: Vec::new(),
        uc_x_offset: Vec::new(),
        uc_y_offset: Vec::new(),
        pair_site: Vec::new(),
        jxx: Vec::new(),
        jxy: Vec::new(),
        jxz: Vec::new(),
        jyx: Vec::new(),
        jyy: Vec::new(),
        jyz: Vec::new(),
        jzx: Vec::new(),
        jzy: Vec::new(),
        jzz: Vec::new(),
    };
    let ghost n = interactions[0][0]@.len() as int;
    let mut layer: usize = 0;
    while layer < 6
        invariant
            layer <= 6,
            n == interactions[0][0]@.len(),
            forall|l: int, s: int| 0 <= l < 6 && 0 <= s < 4 ==>
                (#[trigger] interactions[l][s])@.len() >= n,
            packs(packed, packed_order(interactions, n, 4 * layer)),
        decreases 6 - layer,
    {
        let mut site: usize = 0;
        while site < 4
            invariant
                layer < 6,
                site <= 4,
                n == interactions[0][0]@.len(),
                forall|l: int, s: int| 0 <= l < 6 && 0 <= s < 4 ==>
                    (#[trigger] interactions[l][s])@.len() >= n,
                packs(packed, packed_order(interactions, n, 4 * layer + site)),
            decreases 4 - site,
        {
            let ints_vec = &interactions[layer][site];
            let ghost g = 4 * layer + site;
            let ghost before = packed_order(interactions, n, g);
            assert(g / 4 == layer && g % 4 == site);
            assert(packed_order(interactions, n, g + 1) == before + ints_vec@.take(n));
            let mut pairing: usize = 0;
            assert(before + ints_vec@.take(0) =~= before);
            while pairing < interactions[0][0].len()
                invariant
                    n == interactions[0][0]@.len(),
                    ints_vec@.len() >= n,
                    pairing <= n,
                    packs(packed, before + ints_vec@.take(pairing as int)),
                decreases n - pairing,
            {
                let entry = &ints_vec[pairing];
                push_interaction(&mut packed, entry, Ghost(before + ints_vec@.take(pairing as int)));
                assert((before + ints_vec@.take(pairing as int)).push(*entry)
                    =~= before + ints_vec@.take(pairing + 1));
                pairing += 1;
            }
            site += 1;
        }
        layer += 1;
    }
    proof {
        let order = packed_order(interactions, n, 24);
        lemma_packed_order(interactions, n, 24);
        lemma_packs_fields(packed, order);
        assert forall|l: int, s: int, p: int| 0 <= l < 6 && 0 <= s < 4 && 0 <= p < n implies
            order[(l * 4 + s) * n + p] == #[trigger] interactions[l][s]@[p] && 0 <= (l * 4 + s) * n + p < order.len() by {
            let g = l * 4 + s;
            assert(g / 4 == l && g % 4 == s);
            assert(order[g * n + p] == interactions[g / 4][g % 4]@[p]);
            assert(0 <= g * n + p < 24 * n) by (nonlinear_arith) requires 0 <= g < 24, 0 <= p < n;
        }
    }
    packed
}

} // verus!
