//! Cropping the frequency-space ring masks to a tile and dropping the rings
//! that fall outside it. Masks are square and stored row by row.
use vstd::arithmetic::div_mod::{lemma_fundamental_div_mod, lemma_fundamental_div_mod_converse};
use vstd::prelude::*;

verus! {

/// The `size` x `size` block of the `dimension`-wide `mask` whose top-left
/// corner is column `x0`, row `y0`.
pub open spec fn cropped(mask: Seq<bool>, dimension: int, x0: int, y0: int, size: int) -> Seq<bool> {
    Seq::new((size * size) as nat, |k: int| mask[(y0 + k / size) * dimension + x0 + k % size])
}

/// The offset, on both axes, of a tile of side `size` centred in a frame of
/// side `dimension`.
pub open spec fn centre_offset(dimension: int, size: int) -> int {
    (dimension - size) / 2
}

/// The centred `size` x `size` block of `mask`.
pub open spec fn centred(mask: Seq<bool>, dimension: int, size: int) -> Seq<bool> {
    cropped(mask, dimension, centre_offset(dimension, size), centre_offset(dimension, size), size)
}

/// Some pixel of `m` is set.
pub open spec fn has_true(m: Seq<bool>) -> bool {
    exists|p: int| 0 <= p < m.len() && #[trigger] m[p]
}

/// Of the first `n` masks, those whose centred crop is not empty, each with
/// its index and its crop, in the order of the masks.
pub open spec fn survivors(masks: Seq<Seq<bool>>, dimension: int, size: int, n: int) -> Seq<(usize, Seq<bool>)>
    decreases n,
{
    if n <= 0 {
        Seq::empty()
    } else {
        let prev = survivors(masks, dimension, size, n - 1);
        let c = centred(masks[n - 1], dimension, size);
        if has_true(c) {
            prev.push(((n - 1) as usize, c))
        } else {
            prev
        }
    }
}

/// The start of the centred crop; the crop ends `size` later, at
/// `(dimension + size) / 2`.
pub fn centred_start(dimension: usize, size: usize) -> (r: usize)
    requires
        size <= dimension,
    ensures
        r == centre_offset(dimension as int, size as int),
        r + size == (dimension + size) / 2,
        r + size <= dimension,
{
    (dimension - size) / 2
}

/// The `size` x `size` block of `mask` at column `x0`, row `y0`.
pub fn crop_mask(mask: &Vec<bool>, dimension: usize, x0: usize, y0: usize, size: usize) -> (r: Vec<bool>)
    requires
        mask@.len() == dimension * dimension,
        x0 + size <= dimension,
        y0 + size <= dimension,
    ensures
        r@ == cropped(mask@, dimension as int, x0 as int, y0 as int, size as int),
{
    let ghost d = dimension as int;
    let mlen = mask.len();
    let mut r: Vec<bool> = Vec::new();
    let mut i: usize = 0;
    assert(0 * size == 0) by (nonlinear_arith);
    while i < size
        invariant
            mask@.len() == d * d,
            mlen == mask@.len(),
            d == dimension,
            x0 + size <= dimension,
            y0 + size <= dimension,
            i <= size,
            r@.len() == i * size,
            forall|k: int| 0 <= k < r@.len() ==> #[trigger] r@[k] == mask@[(y0 + k / size as int) * d + x0 + k % size as int],
        decreases size - i,
    {
        assert((y0 + i + 1) * d <= d * d) by (nonlinear_arith)
            requires
                y0 + i + 1 <= d,
                d >= 0,
        ;
        assert((y0 + i + 1) * d == (y0 + i) * d + d) by (nonlinear_arith);
        assert((y0 + i) * d <= d * d);
        let row = (y0 + i) * dimension;
        let mut j: usize = 0;
        while j < size
            invariant
                mask@.len() == d * d,
                mlen == mask@.len(),
                d == dimension,
                x0 + size <= dimension,
                i < size,
                j <= size,
                row == (y0 + i) * d,
                row + d <= d * d,
                r@.len() == i * size + j,
                forall|k: int| 0 <= k < r@.len() ==> #[trigger] r@[k] == mask@[(y0 + k / size as int) * d + x0 + k % size as int],
            decreases size - j,
        {
            proof {
                lemma_fundamental_div_mod_converse(i * size + j, size as int, i as int, j as int);
                assert(row + x0 + j < row + d);
            }
            r.push(mask[row + x0 + j]);
            j = j + 1;
        }
        assert(i * size + size == (i + 1) * size) by (nonlinear_arith);
        i = i + 1;
    }
    assert(r@ =~= cropped(mask@, dimension as int, x0 as int, y0 as int, size as int));
    r
}

/// Whether some pixel of `m` is set.
pub fn any_set(m: &Vec<bool>) -> (r: bool)
    ensures
        r == has_true(m@),
{
    let mut i: usize = 0;
    while i < m.len()
        invariant
            i <= m@.len(),
            forall|p: int| 0 <= p < i ==> !#[trigger] m@[p],
        decreases m@.len() - i,
    {
        if m[i] {
            return true;
        }
        i = i + 1;
    }
    false
}

/// The annuli that reach into a centred tile of side `size`: for each mask
/// whose centred crop has a set pixel, its index and that crop, in order.
pub fn surviving_annuli(masks: &Vec<Vec<bool>>, dimension: usize, size: usize) -> (r: Vec<(usize, Vec<bool>)>)
    requires
        size <= dimension,
        forall|k: int| 0 <= k < masks@.len() ==> (#[trigger] masks@[k])@.len() == dimension * dimension,
    ensures
        r@.len() == survivors(masks@.map_values(|m: Vec<bool>| m@), dimension as int, size as int, masks@.len() as int).len(),
        forall|j: int| 0 <= j < r@.len() ==> (#[trigger] r@[j]).0 == survivors(masks@.map_values(|m: Vec<bool>| m@), dimension as int, size as int, masks@.len() as int)[j].0
            && r@[j].1@ == survivors(masks@.map_values(|m: Vec<bool>| m@), dimension as int, size as int, masks@.len() as int)[j].1,
{
    let ghost ms = masks@.map_values(|m: Vec<bool>| m@);
    let start = centred_start(dimension, size);
    let mut r: Vec<(usize, Vec<bool>)> = Vec::new();
    let mut k: usize = 0;
    while k < masks.len()
        invariant
            size <= dimension,
            start == centre_offset(dimension as int, size as int),
            start + size <= dimension,
            ms == masks@.map_values(|m: Vec<bool>| m@),
            forall|k: int| 0 <= k < masks@.len() ==> (#[trigger] masks@[k])@.len() == dimension * dimension,
            k <= masks@.len(),
            r@.len() == survivors(ms, dimension as int, size as int, k as int).len(),
            forall|j: int| 0 <= j < r@.len() ==> (#[trigger] r@[j]).0 == survivors(ms, dimension as int, size as int, k as int)[j].0
                && r@[j].1@ == survivors(ms, dimension as int, size as int, k as int)[j].1,
        decreases masks@.len() - k,
    {
        let crop = crop_mask(&masks[k], dimension, start, start, size);
        assert(ms[k as int] == masks@[k as int]@);
        if any_set(&crop) {
            r.push((k, crop));
        }
        k = k + 1;
    }
    r
}

/// Pixel `p` is set in some mask of `masks`.
pub open spec fn covered(masks: Seq<Seq<bool>>, p: int) -> bool {
    exists|k: int| 0 <= k < masks.len() && #[trigger] masks[k][p]
}

/// Pixel `p` is set in the crop of some surviving annulus.
pub open spec fn covered_by_survivor(s: Seq<(usize, Seq<bool>)>, p: int) -> bool {
    exists|j: int| 0 <= j < s.len() && #[trigger] s[j].1[p]
}

/// With centred crops of the full frame, each mask is its own crop.
proof fn lemma_full_crop(m: Seq<bool>, dimension: int)
    requires
        dimension > 0,
        m.len() == dimension * dimension,
    ensures
        centred(m, dimension, dimension) == m,
{
    let c = centred(m, dimension, dimension);
    assert forall|k: int| 0 <= k < m.len() implies #[trigger] c[k] == m[k] by {
        lemma_fundamental_div_mod(k, dimension);
        assert(centre_offset(dimension, dimension) == 0);
        assert((k / dimension) * dimension == dimension * (k / dimension)) by (nonlinear_arith);
    }
    assert(c =~= m);
}

/// What every prefix of the survivors holds: increasing mask indices below
/// `n`, each with its non-empty crop, and every mask with a non-empty crop.
proof fn lemma_survivors(masks: Seq<Seq<bool>>, dimension: int, size: int, n: int)
    requires
        0 <= n <= masks.len(),
        masks.len() <= usize::MAX,
    ensures
        forall|j: int| 0 <= j < survivors(masks, dimension, size, n).len() ==> {
            let e = #[trigger] survivors(masks, dimension, size, n)[j];
            &&& e.0 < n
            &&& e.1 == centred(masks[e.0 as int], dimension, size)
        },
        forall|i: int, j: int| 0 <= i < j < survivors(masks, dimension, size, n).len()
            ==> #[trigger] survivors(masks, dimension, size, n)[i].0 < #[trigger] survivors(masks, dimension, size, n)[j].0,
        forall|k: int| 0 <= k < n && has_true(#[trigger] centred(masks[k], dimension, size))
            ==> exists|j: int| 0 <= j < survivors(masks, dimension, size, n).len()
            && #[trigger] survivors(masks, dimension, size, n)[j].0 == k,
    decreases n,
{
    if n > 0 {
        lemma_survivors(masks, dimension, size, n - 1);
        let prev = survivors(masks, dimension, size, n - 1);
        let cur = survivors(masks, dimension, size, n);
        assert forall|k: int| 0 <= k < n && has_true(#[trigger] centred(masks[k], dimension, size))
            implies exists|j: int| 0 <= j < cur.len() && #[trigger] cur[j].0 == k by {
            if k < n - 1 {
                let j = choose|j: int| 0 <= j < prev.len() && #[trigger] prev[j].0 == k;
                assert(cur[j] == prev[j]);
            } else {
                assert(cur[prev.len() as int].0 == k);
            }
        }
    }
}

/// For a tile as large as the frame, ring masks that partition the frame
/// still partition it once the masks with no set pixel are dropped: every
/// pixel lies in exactly one surviving mask.
pub proof fn lemma_full_tile_partition(masks: Seq<Seq<bool>>, dimension: int)
    requires
        dimension > 0,
        masks.len() <= usize::MAX,
        forall|k: int| 0 <= k < masks.len() ==> (#[trigger] masks[k]).len() == dimension * dimension,
        forall|p: int| 0 <= p < dimension * dimension ==> #[trigger] covered(masks, p),
        forall|p: int, k1: int, k2: int| 0 <= k1 < masks.len() && 0 <= k2 < masks.len() && 0 <= p < dimension * dimension
            && #[trigger] masks[k1][p] && #[trigger] masks[k2][p] ==> k1 == k2,
    ensures
        ({
            let s = survivors(masks, dimension, dimension, masks.len() as int);
            &&& forall|p: int| 0 <= p < dimension * dimension ==> #[trigger] covered_by_survivor(s, p)
            &&& forall|p: int, j1: int, j2: int| 0 <= j1 < s.len() && 0 <= j2 < s.len() && 0 <= p < dimension * dimension
                && #[trigger] s[j1].1[p] && #[trigger] s[j2].1[p] ==> j1 == j2
        }),
{
    let n = masks.len() as int;
    let s = survivors(masks, dimension, dimension, n);
    lemma_survivors(masks, dimension, dimension, n);
    assert forall|k: int| 0 <= k < n implies #[trigger] centred(masks[k], dimension, dimension) == masks[k] by {
        lemma_full_crop(masks[k], dimension);
    }
    assert forall|p: int| 0 <= p < dimension * dimension implies #[trigger] covered_by_survivor(s, p) by {
        assert(covered(masks, p));
        let k = choose|k: int| 0 <= k < masks.len() && #[trigger] masks[k][p];
        assert(centred(masks[k], dimension, dimension) == masks[k]);
        assert(has_true(centred(masks[k], dimension, dimension)));
        let j = choose|j: int| 0 <= j < s.len() && #[trigger] s[j].0 == k;
        assert(s[j].1[p]);
    }
    assert forall|p: int, j1: int, j2: int| 0 <= j1 < s.len() && 0 <= j2 < s.len() && 0 <= p < dimension * dimension
        && #[trigger] s[j1].1[p] && #[trigger] s[j2].1[p] implies j1 == j2 by {
        let k1 = s[j1].0 as int;
        let k2 = s[j2].0 as int;
        assert(s[j1].1 == masks[k1]);
        assert(s[j2].1 == masks[k2]);
        assert(masks[k1][p] && masks[k2][p]);
        if j1 < j2 {
            assert(s[j1].0 < s[j2].0);
        } else if j2 < j1 {
            assert(s[j2].0 < s[j1].0);
        }
    }
}

} // verus!
