//! Tile sizes and tile positions for the multi-scale analysis.
use itertools::Itertools;
use vstd::arithmetic::div_mod::{
    lemma_div_is_ordered, lemma_div_plus_one, lemma_fundamental_div_mod_converse,
};
use vstd::arithmetic::power::{lemma_pow_increases, lemma_pow_positive, pow};
use vstd::prelude::*;

verus! {

/// The number 2^a * 3^b * 5^c.
pub open spec fn smooth(a: nat, b: nat, c: nat) -> int {
    pow(2, a) * pow(3, b) * pow(5, c)
}

/// A size whose only prime factors are 2, 3 and 5, which the Fourier
/// transform handles efficiently.
pub open spec fn is_fft_friendly(v: int) -> bool {
    exists|a: nat, b: nat, c: nat| v == #[trigger] smooth(a, b, c)
}

spec fn is_smooth23(v: int) -> bool {
    exists|a: nat, b: nat| v == #[trigger] pow(2, a) * #[trigger] pow(3, b)
}

/// Every element is smaller than every later one.
pub open spec fn strictly_ascending(s: Seq<usize>) -> bool {
    forall|i: int, j: int| 0 <= i < j < s.len() ==> s[i] < s[j]
}

/// Relies on itertools' `Itertools::cartesian_product`: it yields every pair
/// `(x, y)`, with the element of `xs` varying slowest.
#[verifier::external_body]
fn cartesian_product(xs: &Vec<usize>, ys: &Vec<usize>) -> (r: Vec<(usize, usize)>)
    ensures
        r@.len() == xs@.len() * ys@.len(),
        forall|k: int|
            0 <= k < r@.len() ==> #[trigger] r@[k] == (xs@[k / ys@.len() as int], ys@[k
                % ys@.len() as int]),
{
    xs.iter().copied().cartesian_product(ys.iter().copied()).collect()
}

proof fn lemma_product_index(k: int, a: int, b: int, xl: int, yl: int)
    requires
        0 <= a < xl,
        0 <= b < yl,
        k == a * yl + b,
    ensures
        0 <= k < xl * yl,
        k / yl == a,
        k % yl == b,
{
    lemma_fundamental_div_mod_converse(k, yl, a, b);
    assert(0 <= k < xl * yl) by (nonlinear_arith)
        requires
            0 <= a < xl,
            0 <= b < yl,
            k == a * yl + b,
    ;
}

proof fn lemma_factor_le(x: int, y: int)
    requires
        x >= 0,
        y >= 1,
    ensures
        x <= x * y,
{
    assert(x <= x * y) by (nonlinear_arith)
        requires
            x >= 0,
            y >= 1,
    ;
}

/// The powers `base^0, base^1, ...` that do not exceed `max`, ascending.
fn powers_up_to(base: usize, max: usize) -> (r: Vec<usize>)
    requires
        2 <= base,
    ensures
        forall|i: int| 0 <= i < r@.len() ==> #[trigger] r@[i] as int == pow(base as int, i as nat),
        forall|i: int| 0 <= i < r@.len() ==> #[trigger] r@[i] <= max,
        pow(base as int, r@.len()) > max,
{
    let mut r: Vec<usize> = Vec::new();
    let mut p: usize = 1;
    proof {
        reveal(pow);
    }
    while p <= max
        invariant
            2 <= base,
            p >= 1,
            p as int == pow(base as int, r@.len()),
            forall|i: int|
                0 <= i < r@.len() ==> #[trigger] r@[i] as int == pow(base as int, i as nat),
            forall|i: int| 0 <= i < r@.len() ==> #[trigger] r@[i] <= max,
        decreases max - p,
    {
        r.push(p);
        proof {
            assert(r@[r@.len() - 1] == p);
            reveal(pow);
            assert(pow(base as int, r@.len()) == base * pow(base as int, (r@.len() - 1) as nat));
        }
        if p > max / base {
            assert(p * base > max) by (nonlinear_arith)
                requires
                    p > max / base,
                    base >= 2,
            ;
            assert(pow(base as int, r@.len()) == p * base) by (nonlinear_arith)
                requires
                    pow(base as int, r@.len()) == base * pow(base as int, (r@.len() - 1) as nat),
                    p == pow(base as int, (r@.len() - 1) as nat),
            ;
            return r;
        }
        assert(p * base <= max) by (nonlinear_arith)
            requires
                p <= max / base,
                base >= 2,
        ;
        assert(p * base > p) by (nonlinear_arith)
            requires
                p >= 1,
                base >= 2,
        ;
        assert(pow(base as int, r@.len()) == p * base) by (nonlinear_arith)
            requires
                pow(base as int, r@.len()) == base * pow(base as int, (r@.len() - 1) as nat),
                p == pow(base as int, (r@.len() - 1) as nat),
        ;
        p = p * base;
    }
    r
}

/// Inserts `x` into a strictly ascending vector, keeping it strictly
/// ascending; a value already present is not inserted twice.
fn insert_sorted(v: &mut Vec<usize>, x: usize)
    requires
        strictly_ascending(old(v)@),
    ensures
        strictly_ascending(final(v)@),
        forall|y: usize| #[trigger] final(v)@.contains(y) <==> (old(v)@.contains(y) || y == x),
{
    let mut i: usize = 0;
    while i < v.len() && v[i] < x
        invariant
            v@ == old(v)@,
            strictly_ascending(v@),
            i <= v@.len(),
            forall|j: int| 0 <= j < i ==> v@[j] < x,
        decreases v@.len() - i,
    {
        i = i + 1;
    }
    if i < v.len() && v[i] == x {
        assert(v@[i as int] == x);
    } else {
        let ghost before = v@;
        v.insert(i, x);
        assert forall|y: usize| #[trigger] v@.contains(y) <==> (before.contains(y) || y == x) by {
            if v@.contains(y) {
                let j = choose|j: int| 0 <= j < v@.len() && v@[j] == y;
                if j < i {
                    assert(before[j] == y);
                } else if j > i {
                    assert(before[j - 1] == y);
                }
            }
            if before.contains(y) {
                let j = choose|j: int| 0 <= j < before.len() && before[j] == y;
                if j < i {
                    assert(v@[j] == y);
                } else {
                    assert(v@[j + 1] == y);
                }
            }
            if y == x {
                assert(v@[i as int] == y);
            }
        }
    }
}

proof fn lemma_push_keeps(s: Seq<usize>, x: usize, v: usize)
    requires
        s.contains(v),
    ensures
        s.push(x).contains(v),
{
    let w = choose|w: int| 0 <= w < s.len() && s[w] == v;
    assert(s.push(x)[w] == v);
}

/// For `k` within the product of lengths `xl * yl`, the pair of indices that
/// `cartesian_product` places at `k`.
proof fn lemma_split_index(k: int, xl: int, yl: int)
    requires
        0 <= k < xl * yl,
        xl >= 0,
        yl >= 0,
    ensures
        yl > 0,
        0 <= k / yl < xl,
        0 <= k % yl < yl,
{
    assert(yl > 0) by (nonlinear_arith)
        requires
            0 <= k < xl * yl,
            xl >= 0,
            yl >= 0,
    ;
    vstd::arithmetic::div_mod::lemma_fundamental_div_mod(k, yl);
    vstd::arithmetic::div_mod::lemma_mod_pos_bound(k, yl);
    let q = k / yl;
    let r = k % yl;
    assert(0 <= q < xl) by (nonlinear_arith)
        requires
            k == yl * q + r,
            0 <= r < yl,
            0 <= k < xl * yl,
            yl > 0,
    ;
}

/// Every size of the form 2^a * 3^b * 5^c within `[min, max]`, ascending.
pub fn friendly_sizes(min: usize, max: usize) -> (r: Vec<usize>)
    ensures
        strictly_ascending(r@),
        forall|i: int|
            0 <= i < r@.len() ==> min <= #[trigger] r@[i] <= max && is_fft_friendly(r@[i] as int),
        forall|v: int| min <= v <= max && is_fft_friendly(v) ==> r@.contains(v as usize),
{
    let twos = powers_up_to(2, max);
    let threes = powers_up_to(3, max);
    let fives = powers_up_to(5, max);
    let pairs = cartesian_product(&twos, &threes);
    let mut partial: Vec<usize> = Vec::new();
    let mut k: usize = 0;
    while k < pairs.len()
        invariant
            k <= pairs@.len(),
            pairs@.len() == twos@.len() * threes@.len(),
            forall|j: int|
                0 <= j < pairs@.len() ==> #[trigger] pairs@[j] == (twos@[j / threes@.len() as int],
                    threes@[j % threes@.len() as int]),
            forall|i: int| 0 <= i < twos@.len() ==> #[trigger] twos@[i] as int == pow(2, i as nat),
            forall|i: int|
                0 <= i < threes@.len() ==> #[trigger] threes@[i] as int == pow(3, i as nat),
            forall|i: int|
                0 <= i < partial@.len() ==> #[trigger] partial@[i] <= max && is_smooth23(
                    partial@[i] as int,
                ),
            forall|j: int|
                0 <= j < k && #[trigger] pairs@[j].0 * pairs@[j].1 <= max ==> partial@.contains(
                    (pairs@[j].0 * pairs@[j].1) as usize,
                ),
        decreases pairs@.len() - k,
    {
        let ghost prev = partial@;
        let (x, y) = pairs[k];
        match x.checked_mul(y) {
            Some(m) => {
                if m <= max {
                    proof {
                        let yl = threes@.len() as int;
                        lemma_split_index(k as int, twos@.len() as int, yl);
                        let a = (k as int / yl) as nat;
                        let b = (k as int % yl) as nat;
                        assert(m == pow(2, a) * pow(3, b));
                    }
                    partial.push(m);
                    assert(partial@[partial@.len() - 1] == m);
                }
            },
            None => {},
        }
        proof {
            assert forall|j: int|
                0 <= j < k + 1 && #[trigger] pairs@[j].0 * pairs@[j].1
                    <= max implies partial@.contains((pairs@[j].0 * pairs@[j].1) as usize) by {
                if j < k {
                    if partial@ != prev {
                        lemma_push_keeps(prev, partial@.last(), (pairs@[j].0 * pairs@[j].1) as usize);
                        assert(partial@ == prev.push(partial@.last()));
                    }
                } else {
                    assert(partial@[partial@.len() - 1] == (pairs@[j].0 * pairs@[j].1) as usize);
                }
            }
        }
        k = k + 1;
    }
    let triples = cartesian_product(&partial, &fives);
    let mut r: Vec<usize> = Vec::new();
    let mut k: usize = 0;
    while k < triples.len()
        invariant
            k <= triples@.len(),
            triples@.len() == partial@.len() * fives@.len(),
            forall|j: int|
                0 <= j < triples@.len() ==> #[trigger] triples@[j] == (partial@[j
                    / fives@.len() as int], fives@[j % fives@.len() as int]),
            forall|i: int| 0 <= i < fives@.len() ==> #[trigger] fives@[i] as int == pow(5, i as nat),
            forall|i: int|
                0 <= i < partial@.len() ==> #[trigger] partial@[i] <= max && is_smooth23(
                    partial@[i] as int,
                ),
            strictly_ascending(r@),
            forall|i: int|
                0 <= i < r@.len() ==> min <= #[trigger] r@[i] <= max && is_fft_friendly(
                    r@[i] as int,
                ),
            forall|j: int|
                0 <= j < k && min <= #[trigger] triples@[j].0 * triples@[j].1 <= max
                    ==> r@.contains((triples@[j].0 * triples@[j].1) as usize),
        decreases triples@.len() - k,
    {
        let ghost prev = r@;
        let (x, z) = triples[k];
        match x.checked_mul(z) {
            Some(m) => {
                if min <= m && m <= max {
                    proof {
                        let zl = fives@.len() as int;
                        lemma_split_index(k as int, partial@.len() as int, zl);
                        let c = (k as int % zl) as nat;
                        let i = k as int / zl;
                        assert(is_smooth23(partial@[i] as int));
                        let (a, b) = choose|a: nat, b: nat|
                            partial@[i] as int == #[trigger] pow(2, a) * #[trigger] pow(3, b);
                        assert(m == smooth(a, b, c));
                        assert(is_fft_friendly(m as int));
                    }
                    insert_sorted(&mut r, m);
                    assert forall|i: int| 0 <= i < r@.len() implies min <= #[trigger] r@[i] <= max
                        && is_fft_friendly(r@[i] as int) by {
                        assert(r@.contains(r@[i]));
                        if r@[i] != m {
                            let w = choose|w: int| 0 <= w < prev.len() && prev[w] == r@[i];
                        }
                    }
                }
            },
            None => {},
        }
        assert forall|y: usize| prev.contains(y) implies r@.contains(y) by {}
        k = k + 1;
    }
    proof {
        assert forall|v: int| min <= v <= max && is_fft_friendly(v) implies r@.contains(
            v as usize,
        ) by {
            let (a, b, c) = choose|a: nat, b: nat, c: nat| v == #[trigger] smooth(a, b, c);
            let pow_two = pow(2, a);
            let pow_three = pow(3, b);
            let pow_five = pow(5, c);
            lemma_pow_positive(2, a);
            lemma_pow_positive(3, b);
            lemma_pow_positive(5, c);
            lemma_factor_le(pow_two * pow_three, pow_five);
            lemma_factor_le(pow_two, pow_three);
            assert(pow_three <= pow_two * pow_three) by (nonlinear_arith)
                requires
                    pow_two >= 1,
                    pow_three >= 1,
            ;
            assert(pow_five <= pow_two * pow_three * pow_five) by (nonlinear_arith)
                requires
                    pow_two * pow_three >= 1,
                    pow_five >= 1,
            ;
            if a >= twos@.len() {
                lemma_pow_increases(2, twos@.len(), a);
            }
            if b >= threes@.len() {
                lemma_pow_increases(3, threes@.len(), b);
            }
            if c >= fives@.len() {
                lemma_pow_increases(5, fives@.len(), c);
            }
            let k1 = a * threes@.len() + b as int;
            lemma_product_index(k1, a as int, b as int, twos@.len() as int, threes@.len() as int);
            assert(a < twos@.len());
            assert(b < threes@.len());
            assert(c < fives@.len());
            assert(pairs@[k1] == (twos@[a as int], threes@[b as int]));
            assert(pairs@[k1].0 * pairs@[k1].1 == pow_two * pow_three);
            assert(pairs@[k1].0 * pairs@[k1].1 <= max);
            assert(partial@.contains((pow_two * pow_three) as usize));
            let i = choose|i: int| 0 <= i < partial@.len() && partial@[i] == (pow_two * pow_three) as usize;
            let k2 = i * fives@.len() + c;
            lemma_product_index(k2, i, c as int, partial@.len() as int, fives@.len() as int);
            assert(triples@[k2] == (partial@[i], fives@[c as int]));
            assert(triples@[k2].0 * triples@[k2].1 == v);
        }
    }
    r
}

/// `c` lists, ascending, exactly the Fourier-friendly sizes in `[min, max]`.
pub open spec fn is_candidate_list(c: Seq<usize>, min: int, max: int) -> bool {
    &&& strictly_ascending(c)
    &&& forall|i: int| 0 <= i < c.len() ==> min <= #[trigger] c[i] <= max && is_fft_friendly(c[i] as int)
    &&& forall|v: int| min <= v <= max && is_fft_friendly(v) ==> c.contains(v as usize)
}

/// The ascending list of Fourier-friendly sizes in `[min, max]`.
pub open spec fn candidates(min: int, max: int) -> Seq<usize> {
    choose|c: Seq<usize>| is_candidate_list(c, min, max)
}

/// Position `i` of a selection of `n` out of `len` values spread evenly:
/// the ceiling of `i * len / n`.
pub open spec fn stride_index(i: int, len: int, n: int) -> int {
    (i * len + n - 1) / n
}

/// `n` values of `c` taken at an even index stride, the last always being
/// the largest value of `c`.
pub open spec fn evenly_selected(c: Seq<usize>, n: int) -> Seq<usize> {
    Seq::new(n as nat, |i: int| if i == n - 1 { c.last() } else { c[stride_index(i, c.len() as int, n)] })
}

proof fn lemma_ascending_unique(a: Seq<usize>, b: Seq<usize>)
    requires
        strictly_ascending(a),
        strictly_ascending(b),
        forall|y: usize| a.contains(y) <==> b.contains(y),
    ensures
        a == b,
    decreases a.len(),
{
    if a.len() == 0 {
        if b.len() > 0 {
            assert(b.contains(b[0]));
        }
    } else {
        assert(a.contains(a[0]));
        assert(b.contains(a[0]));
        assert(b.len() > 0);
        assert(b.contains(b[0]));
        assert(a.contains(b[0]));
        assert(a[0] == b[0]) by {
            let i = choose|i: int| 0 <= i < a.len() && a[i] == b[0];
            let j = choose|j: int| 0 <= j < b.len() && b[j] == a[0];
            if i > 0 && j > 0 {
                assert(a[0] < a[i]);
                assert(b[0] < b[j]);
            }
        }
        let a1 = a.drop_first();
        let b1 = b.drop_first();
        assert forall|y: usize| a1.contains(y) <==> b1.contains(y) by {
            if a1.contains(y) {
                let i = choose|i: int| 0 <= i < a1.len() && a1[i] == y;
                assert(a[i + 1] == y);
                assert(b.contains(y));
                let j = choose|j: int| 0 <= j < b.len() && b[j] == y;
                assert(a[0] < a[i + 1]);
                assert(j != 0);
                assert(b1[j - 1] == y);
            }
            if b1.contains(y) {
                let j = choose|j: int| 0 <= j < b1.len() && b1[j] == y;
                assert(b[j + 1] == y);
                assert(a.contains(y));
                let i = choose|i: int| 0 <= i < a.len() && a[i] == y;
                assert(b[0] < b[j + 1]);
                assert(i != 0);
                assert(a1[i - 1] == y);
            }
        }
        lemma_ascending_unique(a1, b1);
        assert(a == seq![a[0]] + a1);
        assert(b == seq![b[0]] + b1);
    }
}

/// Any list that satisfies the candidate conditions is the candidate list.
pub proof fn lemma_candidates_unique(c: Seq<usize>, min: int, max: int)
    requires
        is_candidate_list(c, min, max),
    ensures
        candidates(min, max) == c,
{
    let d = candidates(min, max);
    assert(is_candidate_list(d, min, max));
    assert forall|y: usize| c.contains(y) <==> d.contains(y) by {
        if c.contains(y) {
            let i = choose|i: int| 0 <= i < c.len() && c[i] == y;
            assert(min <= c[i] <= max && is_fft_friendly(c[i] as int));
        }
        if d.contains(y) {
            let i = choose|i: int| 0 <= i < d.len() && d[i] == y;
            assert(min <= d[i] <= max && is_fft_friendly(d[i] as int));
        }
    }
    lemma_ascending_unique(c, d);
}

/// Stride positions are increasing and stay below the last index.
proof fn lemma_stride_bounds(i: int, j: int, len: int, n: int)
    requires
        0 <= i < j < n,
        n <= len,
    ensures
        0 <= stride_index(i, len, n) < stride_index(j, len, n),
        j < n - 1 ==> stride_index(j, len, n) <= len - 2,
{
    assert((j - i) * len >= len) by (nonlinear_arith)
        requires
            j - i >= 1,
            len >= 0,
    ;
    assert(j * len == i * len + (j - i) * len) by (nonlinear_arith);
    assert(0 <= i * len + n - 1) by (nonlinear_arith)
        requires
            0 <= i,
            1 <= n <= len,
    ;
    vstd::arithmetic::div_mod::lemma_div_pos_is_pos(i * len + n - 1, n);
    lemma_div_is_ordered(i * len + n - 1 + n, j * len + n - 1, n);
    lemma_div_plus_one(i * len + n - 1, n);
    if j < n - 1 {
        assert(j * len + n - 1 <= (len - 2) * n + (n - 1)) by (nonlinear_arith)
            requires
                0 <= j < n - 1,
                n <= len,
        ;
        lemma_div_is_ordered(j * len + n - 1, (len - 2) * n + (n - 1), n);
        lemma_fundamental_div_mod_converse((len - 2) * n + (n - 1), n, len - 2, n - 1);
    }
}

/// Takes `n` values of the ascending `all` at an even index stride, always
/// ending with its last value.
pub fn select_evenly(all: &Vec<usize>, n: usize) -> (r: Vec<usize>)
    requires
        0 < n <= all@.len(),
    ensures
        r@ == evenly_selected(all@, n as int),
{
    let len = all.len();
    let mut r: Vec<usize> = Vec::new();
    let mut i: usize = 0;
    while i + 1 < n
        invariant
            0 < n <= len,
            len == all@.len(),
            i < n,
            r@.len() == i,
            forall|j: int| 0 <= j < i ==> #[trigger] r@[j] == all@[stride_index(j, len as int, n as int)],
        decreases n - i,
    {
        proof {
            if i > 0 {
                lemma_stride_bounds(0, i as int, len as int, n as int);
            } else {
                assert(stride_index(0, len as int, n as int) == (n - 1) / (n as int));
                vstd::arithmetic::div_mod::lemma_div_pos_is_pos(n - 1, n as int);
                lemma_div_is_ordered(n - 1, len as int - 1, n as int);
            }
            assert((i as int) * (len as int) + n - 1 <= (len as int) * (len as int)) by (nonlinear_arith)
                requires
                    i < n <= len,
            ;
            assert((len as int) * (len as int) <= 0xffff_ffff_ffff_ffff * 0xffff_ffff_ffff_ffffint) by (nonlinear_arith)
                requires
                    len <= 0xffff_ffff_ffff_ffff,
            ;
        }
        let k = ((i as u128) * (len as u128) + (n as u128) - 1) / (n as u128);
        r.push(all[k as usize]);
        i = i + 1;
    }
    r.push(all[len - 1]);
    assert(r@ =~= evenly_selected(all@, n as int));
    r
}

/// A selection at an even stride out of an ascending list is itself
/// ascending, keeps only values of the list, and ends with its last value.
pub proof fn lemma_evenly_selected_ascending(c: Seq<usize>, n: int)
    requires
        strictly_ascending(c),
        0 < n <= c.len(),
    ensures
        strictly_ascending(evenly_selected(c, n)),
        forall|i: int| 0 <= i < n ==> c.contains(#[trigger] evenly_selected(c, n)[i]),
        evenly_selected(c, n).last() == c.last(),
{
    let s = evenly_selected(c, n);
    let len = c.len() as int;
    assert forall|i: int, j: int| 0 <= i < j < s.len() implies s[i] < s[j] by {
        lemma_stride_bounds(i, j, len, n);
        if i > 0 {
            lemma_stride_bounds(0, i, len, n);
        } else {
            vstd::arithmetic::div_mod::lemma_div_pos_is_pos(n - 1, n);
            vstd::arithmetic::div_mod::lemma_div_is_ordered(n - 1, n - 1, n);
            assert(stride_index(0, len, n) == (n - 1) / n);
            vstd::arithmetic::div_mod::lemma_fundamental_div_mod_converse(n - 1, n, 0, n - 1);
        }
        let a = stride_index(i, len, n);
        if j == n - 1 {
            assert(a <= len - 2);
            assert(s[i] == c[a]);
            assert(s[j] == c[len - 1]);
        } else {
            assert(s[i] == c[a]);
            assert(s[j] == c[stride_index(j, len, n)]);
        }
    }
    assert forall|i: int| 0 <= i < n implies c.contains(#[trigger] evenly_selected(c, n)[i]) by {
        if i < n - 1 {
            if i > 0 {
                lemma_stride_bounds(0, i, len, n);
            } else {
                vstd::arithmetic::div_mod::lemma_div_pos_is_pos(n - 1, n);
                lemma_div_is_ordered(n - 1, len - 1, n);
            }
            assert(c[stride_index(i, len, n)] == s[i]);
        } else {
            assert(c[len - 1] == s[i]);
        }
    }
}

/// Why a tiling request cannot be planned.
#[derive(Clone, Copy, Debug, PartialEq, Eq)]
pub enum TilingError {
    /// The minimum tile size exceeds the maximum.
    EmptyRange,
    /// A count of tile sizes was given and it is zero.
    ZeroCount,
}

/// What a tiling request yields: the candidates in range, or `n` of them at
/// an even stride when fewer than all are asked for.
pub open spec fn planned_sizes(min: int, max: int, count: Option<usize>) -> Seq<usize> {
    let c = candidates(min, max);
    match count {
        Some(n) => if (n as int) < c.len() { evenly_selected(c, n as int) } else { c },
        None => c,
    }
}

/// The tile sizes to analyse: the Fourier-friendly sizes within
/// `[tiling_min, tiling_max]`, ascending, or `tiling_size_count` of them
/// spread evenly over that list (always keeping the largest).
pub fn get_allowed_dimension(tiling_min: usize, tiling_max: usize, tiling_size_count: Option<usize>) -> (r: Result<Vec<usize>, TilingError>)
    ensures
        tiling_min > tiling_max ==> r == Err::<Vec<usize>, TilingError>(TilingError::EmptyRange),
        tiling_min <= tiling_max && tiling_size_count == Some(0usize) ==> r == Err::<Vec<usize>, TilingError>(
            TilingError::ZeroCount,
        ),
        tiling_min <= tiling_max && tiling_size_count != Some(0usize) ==> r is Ok && r->Ok_0@
            == planned_sizes(tiling_min as int, tiling_max as int, tiling_size_count),
        tiling_min <= tiling_max ==> is_candidate_list(
            candidates(tiling_min as int, tiling_max as int),
            tiling_min as int,
            tiling_max as int,
        ),
        r is Ok && (tiling_size_count is None || tiling_size_count->Some_0 >= candidates(
            tiling_min as int,
            tiling_max as int,
        ).len()) ==> is_candidate_list(r->Ok_0@, tiling_min as int, tiling_max as int),
        r is Ok ==> strictly_ascending(r->Ok_0@),
        r is Ok ==> forall|i: int| 0 <= i < r->Ok_0@.len()
            ==> tiling_min <= #[trigger] r->Ok_0@[i] <= tiling_max && is_fft_friendly(r->Ok_0@[i] as int),
        r is Ok && tiling_size_count is Some && tiling_size_count->Some_0 <= candidates(tiling_min as int, tiling_max as int).len()
            ==> r->Ok_0@.len() == tiling_size_count->Some_0 && r->Ok_0@.contains(
            candidates(tiling_min as int, tiling_max as int).last(),
        ),
{
    if tiling_min > tiling_max {
        return Err(TilingError::EmptyRange);
    }
    let all = friendly_sizes(tiling_min, tiling_max);
    proof {
        lemma_candidates_unique(all@, tiling_min as int, tiling_max as int);
    }
    match tiling_size_count {
        Some(n) => {
            if n == 0 {
                Err(TilingError::ZeroCount)
            } else if n < all.len() {
                let r = select_evenly(&all, n);
                proof {
                    lemma_evenly_selected_ascending(all@, n as int);
                    assert forall|i: int| 0 <= i < r@.len() implies tiling_min <= #[trigger] r@[i] <= tiling_max
                        && is_fft_friendly(r@[i] as int) by {
                        assert(all@.contains(evenly_selected(all@, n as int)[i]));
                    }
                    assert(r@[n - 1] == all@.last());
                }
                Ok(r)
            } else {
                proof {
                    if n == all@.len() {
                        assert(all@[n - 1] == all@.last());
                    }
                }
                Ok(all)
            }
        },
        None => Ok(all),
    }
}

/// Tile origins along one axis: `0, step, 2 * step, ...` up to
/// `dimension - size`.
pub open spec fn grid_offsets(dimension: int, size: int, step: int) -> Seq<usize> {
    Seq::new((((dimension - size) / step) + 1) as nat, |k: int| (k * step) as usize)
}

/// Tile origins `(x, y)` over both axes, `x` varying slowest.
pub open spec fn tile_grid(dimension: int, size: int, step: int) -> Seq<(usize, usize)> {
    let o = grid_offsets(dimension, size, step);
    Seq::new(o.len() * o.len(), |k: int| (o[k / o.len() as int], o[k % o.len() as int]))
}

fn axis_offsets(dimension: usize, size: usize, step: usize) -> (r: Vec<usize>)
    requires
        0 < size <= dimension,
        0 < step,
    ensures
        r@ == grid_offsets(dimension as int, size as int, step as int),
{
    let span = dimension - size;
    let mut r: Vec<usize> = Vec::new();
    let mut off: usize = 0;
    assert(0 * step == 0) by (nonlinear_arith);
    loop
        invariant
            0 < step,
            span == dimension - size,
            off <= span,
            off == r@.len() * step,
            forall|j: int| 0 <= j < r@.len() ==> #[trigger] r@[j] as int == j * step,
        decreases span - off,
    {
        r.push(off);
        if step > span - off {
            proof {
                let q = (r@.len() - 1) as int;
                assert(off == q * step);
                lemma_fundamental_div_mod_converse(span as int, step as int, q, span - off);
                assert(r@.len() == (span as int) / (step as int) + 1);
                assert(span as int == dimension - size);
                assert(grid_offsets(dimension as int, size as int, step as int).len() == r@.len());
                assert forall|j: int| 0 <= j < r@.len() implies #[trigger] r@[j] == grid_offsets(dimension as int, size as int, step as int)[j] by {
                    assert(r@[j] as int == j * step);
                }
            }
            assert(r@ =~= grid_offsets(dimension as int, size as int, step as int));
            return r;
        }
        assert(off + step == r@.len() * step) by (nonlinear_arith)
            requires
                off == (r@.len() - 1) * step,
        ;
        off = off + step;
    }
}

/// Every tile of the grid lies inside the frame.
pub proof fn lemma_tile_grid_in_frame(dimension: int, size: int, step: int)
    requires
        0 < size <= dimension,
        0 < step,
    ensures
        forall|k: int| 0 <= k < tile_grid(dimension, size, step).len()
            ==> #[trigger] tile_grid(dimension, size, step)[k].0 + size <= dimension
            && tile_grid(dimension, size, step)[k].1 + size <= dimension,
{
    let o = grid_offsets(dimension, size, step);
    assert forall|j: int| 0 <= j < o.len() implies #[trigger] o[j] + size <= dimension by {
        assert(j * step <= ((dimension - size) / step) * step) by (nonlinear_arith)
            requires
                0 <= j <= (dimension - size) / step,
                step > 0,
        ;
        vstd::arithmetic::div_mod::lemma_fundamental_div_mod(dimension - size, step);
        vstd::arithmetic::div_mod::lemma_mod_pos_bound(dimension - size, step);
        assert(((dimension - size) / step) * step <= dimension - size) by (nonlinear_arith)
            requires
                dimension - size == step * ((dimension - size) / step) + (dimension - size) % step,
                (dimension - size) % step >= 0,
        ;
    }
    assert forall|k: int| 0 <= k < tile_grid(dimension, size, step).len()
        implies #[trigger] tile_grid(dimension, size, step)[k].0 + size <= dimension
        && tile_grid(dimension, size, step)[k].1 + size <= dimension by {
        lemma_split_index(k, o.len() as int, o.len() as int);
    }
}

/// The origins of the tiles of side `size` in a frame of side `dimension`,
/// stepping by `step` on both axes.
pub fn tile_positions(dimension: usize, size: usize, step: usize) -> (r: Vec<(usize, usize)>)
    requires
        0 < size <= dimension,
        0 < step,
    ensures
        r@ == tile_grid(dimension as int, size as int, step as int),
        forall|k: int| 0 <= k < r@.len() ==> #[trigger] r@[k].0 + size <= dimension && r@[k].1 + size <= dimension,
{
    let offsets = axis_offsets(dimension, size, step);
    let r = cartesian_product(&offsets, &offsets);
    assert(r@ =~= tile_grid(dimension as int, size as int, step as int));
    proof {
        lemma_tile_grid_in_frame(dimension as int, size as int, step as int);
    }
    r
}

/// The tile positions for each tile size, stepping by `tile_step`, or by the
/// tile size itself (no overlap) when no step is given.
pub fn plan_positions(dimension: usize, sizes: &Vec<usize>, tile_step: Option<usize>) -> (r: Vec<Vec<(usize, usize)>>)
    requires
        forall|i: int| 0 <= i < sizes@.len() ==> 0 < #[trigger] sizes@[i] <= dimension,
        tile_step != Some(0usize),
    ensures
        r@.len() == sizes@.len(),
        forall|i: int| 0 <= i < sizes@.len() ==> #[trigger] r@[i]@ == tile_grid(
            dimension as int,
            sizes@[i] as int,
            match tile_step {
                Some(t) => t as int,
                None => sizes@[i] as int,
            },
        ),
{
    let mut r: Vec<Vec<(usize, usize)>> = Vec::new();
    let mut i: usize = 0;
    while i < sizes.len()
        invariant
            forall|i: int| 0 <= i < sizes@.len() ==> 0 < #[trigger] sizes@[i] <= dimension,
            tile_step != Some(0usize),
            i <= sizes@.len(),
            r@.len() == i,
            forall|j: int| 0 <= j < i ==> #[trigger] r@[j]@ == tile_grid(
                dimension as int,
                sizes@[j] as int,
                match tile_step {
                    Some(t) => t as int,
                    None => sizes@[j] as int,
                },
            ),
        decreases sizes@.len() - i,
    {
        let size = sizes[i];
        let step = match tile_step {
            Some(t) => t,
            None => size,
        };
        r.push(tile_positions(dimension, size, step));
        i = i + 1;
    }
    r
}

} // verus!
