use vstd::prelude::*;
use crate::color::ColorU8;

verus! {

/// Number of pixels that every worker gets before the remainder is handed out.
pub open spec fn base_size(total: nat, workers: nat) -> nat
    recommends
        workers > 0,
{
    total / workers
}

/// First pixel index of worker `k`'s slice.
pub open spec fn slice_start(total: nat, workers: nat, k: nat) -> nat
    recommends
        workers > 0,
        k < workers,
{
    k * base_size(total, workers)
}

/// One past the last pixel index of worker `k`'s slice: every slice holds
/// `base_size` pixels, and the last one also takes the remainder.
pub open spec fn slice_end(total: nat, workers: nat, k: nat) -> nat
    recommends
        workers > 0,
        k < workers,
{
    if k + 1 == workers {
        (k + 1) * base_size(total, workers) + total % workers
    } else {
        (k + 1) * base_size(total, workers)
    }
}

/// Pixel index `p` is rendered by worker `k`.
pub open spec fn in_slice(total: nat, workers: nat, k: nat, p: nat) -> bool {
    k < workers && slice_start(total, workers, k) <= p < slice_end(total, workers, k)
}

/// Pixel index `p` lies in the slice of some worker.
pub open spec fn has_owner(total: nat, workers: nat, p: nat) -> bool {
    exists|k: nat| in_slice(total, workers, k, p)
}

proof fn lemma_slice_bounds(total: nat, workers: nat, k: nat)
    requires
        workers > 0,
        k < workers,
    ensures
        slice_start(total, workers, k) <= slice_end(total, workers, k) <= total,
        k + 1 == workers ==> slice_end(total, workers, k) == total,
        slice_end(total, workers, k) == slice_start(total, workers, k) + base_size(total, workers)
            + if k + 1 == workers { total % workers } else { 0 },
{
    let b = base_size(total, workers);
    assert(total == workers * b + total % workers) by {
        vstd::arithmetic::div_mod::lemma_fundamental_div_mod(total as int, workers as int);
    }
    assert((k + 1) * b == k * b + b) by (nonlinear_arith);
    assert((k + 1) * b <= workers * b) by (nonlinear_arith)
        requires
            k + 1 <= workers,
    ;
}

proof fn lemma_slices_ordered(total: nat, workers: nat, k1: nat, k2: nat)
    requires
        k1 < k2 < workers,
    ensures
        slice_end(total, workers, k1) <= slice_start(total, workers, k2),
{
    let b = base_size(total, workers);
    assert((k1 + 1) * b <= k2 * b) by (nonlinear_arith)
        requires
            k1 + 1 <= k2,
    ;
}

proof fn lemma_owner_exists(total: nat, workers: nat, p: nat)
    requires
        workers > 0,
        p < total,
    ensures
        has_owner(total, workers, p),
{
    let b = base_size(total, workers);
    let last = (workers - 1) as nat;
    lemma_slice_bounds(total, workers, last);
    if b == 0 {
        assert(slice_start(total, workers, last) == 0) by (nonlinear_arith)
            requires
                b == 0,
                slice_start(total, workers, last) == last * b,
        ;
        assert(in_slice(total, workers, last, p));
    } else {
        let q = p / b;
        assert(q * b <= p < (q + 1) * b) by (nonlinear_arith)
            requires
                b > 0,
                q == p / b,
        ;
        if q < last {
            assert(in_slice(total, workers, q, p));
        } else {
            assert(last * b <= q * b) by (nonlinear_arith)
                requires
                    last <= q,
            ;
            assert(in_slice(total, workers, last, p));
        }
    }
}

/// The slices split the pixel indices `0 .. total` among the workers with no
/// gap and no overlap: every index below `total` lies in some slice, no slice
/// holds an index at or past `total`, no index lies in two slices, and the
/// last worker's slice holds `base_size` pixels plus the remainder.
pub proof fn lemma_partition_exact(total: nat, workers: nat)
    requires
        workers > 0,
    ensures
        forall|p: nat| p < total ==> #[trigger] has_owner(total, workers, p),
        forall|k: nat, p: nat| #[trigger] in_slice(total, workers, k, p) ==> p < total,
        forall|k1: nat, k2: nat, p: nat|
            #[trigger] in_slice(total, workers, k1, p) && #[trigger] in_slice(total, workers, k2, p)
                ==> k1 == k2,
        slice_start(total, workers, 0) == 0,
        slice_end(total, workers, (workers - 1) as nat) == total,
        slice_end(total, workers, (workers - 1) as nat) - slice_start(
            total,
            workers,
            (workers - 1) as nat,
        ) == base_size(total, workers) + total % workers,
{
    lemma_slice_bounds(total, workers, (workers - 1) as nat);
    assert forall|p: nat| p < total implies #[trigger] has_owner(total, workers, p) by {
        lemma_owner_exists(total, workers, p);
    }
    assert forall|k: nat, p: nat| #[trigger] in_slice(total, workers, k, p) implies p < total by {
        lemma_slice_bounds(total, workers, k);
    }
    assert forall|k1: nat, k2: nat, p: nat|
        #[trigger] in_slice(total, workers, k1, p) && #[trigger] in_slice(total, workers, k2, p)
            implies k1 == k2 by {
        if k1 < k2 {
            lemma_slices_ordered(total, workers, k1, k2);
        } else if k2 < k1 {
            lemma_slices_ordered(total, workers, k2, k1);
        }
    }
}

/// The half-open range `[start, end)` of pixel indices that worker `k` of
/// `workers` renders, for an image of `total` pixels.
pub fn worker_slice(total: usize, workers: usize, k: usize) -> (r: (usize, usize))
    requires
        workers > 0,
        k < workers,
    ensures
        r.0 == slice_start(total as nat, workers as nat, k as nat),
        r.1 == slice_end(total as nat, workers as nat, k as nat),
{
    proof {
        lemma_slice_bounds(total as nat, workers as nat, k as nat);
    }
    let base: usize = total / workers;
    let start: usize = k * base;
    if k + 1 == workers {
        (start, start + base + total % workers)
    } else {
        (start, start + base)
    }
}

/// The slices of all `workers`, in worker order.
pub fn partition(total: usize, workers: usize) -> (r: Vec<(usize, usize)>)
    requires
        workers > 0,
    ensures
        r@.len() == workers,
        forall|k: int|
            0 <= k < workers ==> #[trigger] r@[k] == (
                slice_start(total as nat, workers as nat, k as nat) as usize,
                slice_end(total as nat, workers as nat, k as nat) as usize,
            ),
{
    let mut r: Vec<(usize, usize)> = Vec::new();
    let mut k: usize = 0;
    while k < workers
        invariant
            k <= workers,
            r@.len() == k,
            forall|i: int|
                0 <= i < k ==> #[trigger] r@[i] == (
                    slice_start(total as nat, workers as nat, i as nat) as usize,
                    slice_end(total as nat, workers as nat, i as nat) as usize,
                ),
        decreases workers - k,
    {
        let s = worker_slice(total, workers, k);
        r.push(s);
        k = k + 1;
    }
    r
}

/// Each worker's results have exactly as many pixels as its slice.
pub open spec fn results_fit(total: nat, results: Seq<Vec<ColorU8>>) -> bool {
    forall|k: int|
        0 <= k < results.len() ==> #[trigger] results[k]@.len() == slice_end(
            total,
            results.len(),
            k as nat,
        ) - slice_start(total, results.len(), k as nat)
}

/// Puts together the full image, in pixel-number order, from the results of
/// the workers: `results[k]` holds, in order, the pixels of worker `k`'s slice.
/// There is no image when there are no workers or when some worker's results
/// do not match its slice in length.
pub fn merge_worker_results(total: usize, results: &Vec<Vec<ColorU8>>) -> (r: Option<Vec<ColorU8>>)
    ensures
        r is Some <==> results@.len() > 0 && results_fit(total as nat, results@),
        r matches Some(image) ==> {
            &&& image@.len() == total
            &&& forall|k: nat, p: nat|
                #[trigger] in_slice(total as nat, results@.len(), k, p) ==> image@[p as int]
                    == results@[k as int]@[p - slice_start(total as nat, results@.len(), k)]
        },
{
    let workers: usize = results.len();
    if workers == 0 {
        return None;
    }
    let mut image: Vec<ColorU8> = Vec::new();
    let mut k: usize = 0;
    while k < workers
        invariant
            workers == results@.len(),
            workers > 0,
            k <= workers,
            k < workers ==> image@.len() == slice_start(total as nat, workers as nat, k as nat),
            k == workers ==> image@.len() == total,
            forall|i: int|
                0 <= i < k ==> #[trigger] results@[i]@.len() == slice_end(
                    total as nat,
                    workers as nat,
                    i as nat,
                ) - slice_start(total as nat, workers as nat, i as nat),
            forall|j: nat, p: nat|
                j < k && #[trigger] in_slice(total as nat, workers as nat, j, p) ==> p < image@.len()
                    && image@[p as int] == results@[j as int]@[p - slice_start(
                    total as nat,
                    workers as nat,
                    j,
                )],
        decreases workers - k,
    {
        let (start, end) = worker_slice(total, workers, k);
        proof {
            lemma_slice_bounds(total as nat, workers as nat, k as nat);
        }
        let part: &Vec<ColorU8> = &results[k];
        if part.len() != end - start {
            return None;
        }
        let mut i: usize = 0;
        while i < part.len()
            invariant
                workers == results@.len(),
                k < workers,
                part == results@[k as int],
                part@.len() == end - start,
                start == slice_start(total as nat, workers as nat, k as nat),
                end == slice_end(total as nat, workers as nat, k as nat),
                start <= end,
                i <= part@.len(),
                image@.len() == start + i,
                forall|j: nat, p: nat|
                    j < k && #[trigger] in_slice(total as nat, workers as nat, j, p) ==> p
                        < image@.len() && image@[p as int] == results@[j as int]@[p - slice_start(
                        total as nat,
                        workers as nat,
                        j,
                    )],
                forall|p: nat| start <= p < start + i ==> image@[p as int] == #[trigger] part@[p - start],
            decreases part@.len() - i,
        {
            image.push(part[i]);
            i = i + 1;
        }
        assert forall|j: nat, p: nat|
            j < k + 1 && #[trigger] in_slice(total as nat, workers as nat, j, p) implies p
                < image@.len() && image@[p as int] == results@[j as int]@[p - slice_start(
                total as nat,
                workers as nat,
                j,
            )] by {
            if j == k {
                assert(image@[p as int] == part@[p - start]);
            }
        }
        k = k + 1;
    }
    Some(image)
}

} // verus!
