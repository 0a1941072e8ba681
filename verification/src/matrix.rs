//! Block and matrix helpers: element-wise buffer operations used by the
//! network's per-block processing, and Hadamard-matrix construction.

use vstd::prelude::*;
use crate::sample::{sat_add, sat_add_s};

verus! {

/// Overwrite every element of `arr` with zero.
pub fn zero(arr: &mut Vec<i64>)
    ensures
        final(arr).len() == old(arr).len(),
        forall|i: int| 0 <= i < final(arr).len() ==> final(arr)@[i] == 0,
{
    let n: usize = arr.len();
    for i in 0..n
        invariant
            arr.len() == n,
            forall|j: int| 0 <= j < i ==> arr@[j] == 0,
    {
        arr[i] = 0;
    }
}

/// Add `from` into `into` element-wise with saturation, over the overlapping
/// prefix; positions past `from`'s length are left unchanged.
pub fn elementwise_add(into: &mut Vec<i64>, from: &Vec<i64>)
    ensures
        final(into).len() == old(into).len(),
        forall|i: int|
            0 <= i < old(into).len() && i < from@.len() ==> final(into)@[i] == sat_add_s(
                old(into)@[i],
                from@[i],
            ),
        forall|i: int| from@.len() <= i < old(into).len() ==> final(into)@[i] == old(into)@[i],
{
    let n: usize = if into.len() < from.len() {
        into.len()
    } else {
        from.len()
    };
    for i in 0..n
        invariant
            n <= into.len(),
            n <= from.len(),
            into.len() == old(into).len(),
            forall|j: int| 0 <= j < i ==> into@[j] == sat_add_s(old(into)@[j], from@[j]),
            forall|j: int| i <= j < into.len() ==> into@[j] == old(into)@[j],
    {
        let v: i64 = sat_add(into[i], from[i]);
        into[i] = v;
    }
}

/// Copy `from` into `to` element-wise over the overlapping prefix; positions
/// past `from`'s length are left unchanged.
pub fn copy<T: Copy>(to: &mut Vec<T>, from: &Vec<T>)
    ensures
        final(to).len() == old(to).len(),
        forall|i: int| 0 <= i < old(to).len() && i < from@.len() ==> final(to)@[i] == from@[i],
        forall|i: int| from@.len() <= i < old(to).len() ==> final(to)@[i] == old(to)@[i],
{
    let n: usize = if to.len() < from.len() {
        to.len()
    } else {
        from.len()
    };
    for i in 0..n
        invariant
            n <= to.len(),
            n <= from.len(),
            to.len() == old(to).len(),
            forall|j: int| 0 <= j < i ==> to@[j] == from@[j],
            forall|j: int| i <= j < to.len() ==> to@[j] == old(to)@[j],
    {
        to[i] = from[i];
    }
}

/// The Hadamard matrix of order `2^(logn - 1)`, built by the Sylvester
/// construction: each quadrant repeats the next smaller matrix, negated in the
/// lower-right quadrant. `logn == 0` gives the empty matrix.
pub open spec fn spec_hadamard(logn: nat) -> Seq<Seq<int>>
    decreases logn,
{
    if logn == 0 {
        Seq::empty()
    } else if logn == 1 {
        seq![seq![1int]]
    } else {
        let lower = spec_hadamard((logn - 1) as nat);
        let llen = lower.len() as int;
        Seq::new(
            2 * lower.len(),
            |i: int|
                Seq::new(
                    2 * lower.len(),
                    |j: int|
                        if i < llen {
                            if j < llen {
                                lower[i][j]
                            } else {
                                lower[i][j - llen]
                            }
                        } else {
                            if j < llen {
                                lower[i - llen][j]
                            } else {
                                -lower[i - llen][j - llen]
                            }
                        },
                ),
        )
    }
}

/// Every Hadamard matrix is square and all its entries are 1 or -1.
pub proof fn lemma_hadamard_shape(logn: nat)
    ensures
        forall|i: int|
            0 <= i < spec_hadamard(logn).len() ==> (#[trigger] spec_hadamard(logn)[i]).len()
                == spec_hadamard(logn).len(),
        forall|i: int, j: int|
            0 <= i < spec_hadamard(logn).len() && 0 <= j < spec_hadamard(logn).len() ==> (
            #[trigger] spec_hadamard(logn)[i][j]) == 1 || spec_hadamard(logn)[i][j] == -1,
    decreases logn,
{
    if logn > 1 {
        lemma_hadamard_shape((logn - 1) as nat);
        let lower = spec_hadamard((logn - 1) as nat);
        let llen = lower.len() as int;
        let full = spec_hadamard(logn);
        assert(full.len() == 2 * lower.len());
        assert forall|i: int, j: int|
            0 <= i < full.len() && 0 <= j < full.len() implies (#[trigger] full[i][j]) == 1
            || full[i][j] == -1 by {
            if i < llen {
                if j < llen {
                    assert(full[i][j] == lower[i][j]);
                } else {
                    assert(full[i][j] == lower[i][j - llen]);
                }
            } else {
                if j < llen {
                    assert(full[i][j] == lower[i - llen][j]);
                } else {
                    assert(full[i][j] == -lower[i - llen][j - llen]);
                }
            }
        }
    }
}

/// Build the Hadamard matrix of order `2^(logn - 1)` by the Sylvester
/// construction.
#[verifier::loop_isolation(false)]
#[verifier::rlimit(60)]
pub fn hadamard(logn: usize) -> (r: Vec<Vec<isize>>)
    ensures
        r@.len() == spec_hadamard(logn as nat).len(),
        forall|i: int| 0 <= i < r@.len() ==> (#[trigger] r@[i]@).len() == r@.len(),
        forall|i: int, j: int|
            0 <= i < r@.len() && 0 <= j < r@.len() ==> (#[trigger] r@[i]@[j]) as int
                == spec_hadamard(logn as nat)[i][j],
    decreases logn,
{
    if logn == 0 {
        Vec::new()
    } else if logn == 1 {
        let mut row: Vec<isize> = Vec::new();
        row.push(1);
        let mut out: Vec<Vec<isize>> = Vec::new();
        out.push(row);
        out
    } else {
        proof {
            lemma_hadamard_shape((logn - 1) as nat);
        }
        let ghost spec_low = spec_hadamard((logn - 1) as nat);
        let ghost spec_full = spec_hadamard(logn as nat);
        let lower = hadamard(logn - 1);
        let llen: usize = lower.len();
        let mut out: Vec<Vec<isize>> = Vec::new();
        proof {
            assert(spec_full.len() == 2 * spec_low.len());
        }
        for i in 0..llen
            invariant
                llen == lower.len(),
                lower@.len() == spec_low.len(),
                forall|a: int| 0 <= a < llen ==> (#[trigger] lower@[a]@).len() == llen,
                forall|a: int, b: int|
                    0 <= a < llen && 0 <= b < llen ==> (#[trigger] lower@[a]@[b]) as int
                        == spec_low[a][b],
                out@.len() == i,
                forall|a: int| 0 <= a < i ==> (#[trigger] out@[a]@).len() == 2 * llen,
                forall|a: int, b: int|
                    0 <= a < i && 0 <= b < 2 * llen ==> (#[trigger] out@[a]@[b]) as int
                        == spec_full[a][b],
        {
            let mut row: Vec<isize> = Vec::new();
            for j in 0..llen
                invariant
                    llen == lower.len(),
                    i < llen,
                    forall|a: int| 0 <= a < llen ==> (#[trigger] lower@[a]@).len() == llen,
                    row@.len() == j,
                    forall|b: int| 0 <= b < j ==> row@[b] == lower@[i as int]@[b],
            {
                row.push(lower[i][j]);
            }
            for j in 0..llen
                invariant
                    llen == lower.len(),
                    i < llen,
                    forall|a: int| 0 <= a < llen ==> (#[trigger] lower@[a]@).len() == llen,
                    row@.len() == llen + j,
                    forall|b: int| 0 <= b < llen ==> row@[b] == lower@[i as int]@[b],
                    forall|b: int| 0 <= b < j ==> row@[llen + b] == lower@[i as int]@[b],
            {
                row.push(lower[i][j]);
            }
            proof {
                assert forall|b: int|
                    0 <= b < 2 * llen implies (#[trigger] row@[b]) as int
                    == spec_full[i as int][b] by {
                    if b < llen {
                        assert(spec_full[i as int][b] == spec_low[i as int][b]);
                    } else {
                        assert(spec_full[i as int][b] == spec_low[i as int][b - llen]);
                        assert(row@[llen + (b - llen)] == lower@[i as int]@[b - llen]);
                    }
                }
            }
            out.push(row);
        }
        for i in 0..llen
            invariant
                llen == lower.len(),
                lower@.len() == spec_low.len(),
                forall|a: int| 0 <= a < llen ==> (#[trigger] lower@[a]@).len() == llen,
                forall|a: int, b: int|
                    0 <= a < llen && 0 <= b < llen ==> (#[trigger] lower@[a]@[b]) as int
                        == spec_low[a][b],
                forall|a: int, b: int|
                    0 <= a < llen && 0 <= b < llen ==> spec_low[a][b] == 1 || spec_low[a][b] == -1,
                out@.len() == llen + i,
                forall|a: int| 0 <= a < llen + i ==> (#[trigger] out@[a]@).len() == 2 * llen,
                forall|a: int, b: int|
                    0 <= a < llen + i && 0 <= b < 2 * llen ==> (#[trigger] out@[a]@[b]) as int
                        == spec_full[a][b],
        {
            let mut row: Vec<isize> = Vec::new();
            for j in 0..llen
                invariant
                    llen == lower.len(),
                    i < llen,
                    forall|a: int| 0 <= a < llen ==> (#[trigger] lower@[a]@).len() == llen,
                    row@.len() == j,
                    forall|b: int| 0 <= b < j ==> row@[b] == lower@[i as int]@[b],
            {
                row.push(lower[i][j]);
            }
            for j in 0..llen
                invariant
                    llen == lower.len(),
                    i < llen,
                    forall|a: int| 0 <= a < llen ==> (#[trigger] lower@[a]@).len() == llen,
                    forall|a: int, b: int|
                        0 <= a < llen && 0 <= b < llen ==> (#[trigger] lower@[a]@[b]) as int
                            == spec_low[a][b],
                    forall|a: int, b: int|
                        0 <= a < llen && 0 <= b < llen ==> spec_low[a][b] == 1 || spec_low[a][b]
                            == -1,
                    row@.len() == llen + j,
                    forall|b: int| 0 <= b < llen ==> row@[b] == lower@[i as int]@[b],
                    forall|b: int|
                        0 <= b < j ==> (#[trigger] row@[llen + b]) as int == -(lower@[i as int]@[b]
                            as int),
            {
                let v: isize = lower[i][j];
                row.push(-v);
            }
            proof {
                assert forall|b: int|
                    0 <= b < 2 * llen implies (#[trigger] row@[b]) as int
                    == spec_full[llen + i as int][b] by {
                    if b < llen {
                        assert(spec_full[llen + i as int][b] == spec_low[i as int][b]);
                    } else {
                        assert(spec_full[llen + i as int][b] == -spec_low[i as int][b - llen]);
                        assert(row@[llen + (b - llen)] as int == -(lower@[i as int]@[b - llen]
                            as int));
                    }
                }
            }
            out.push(row);
        }
        out
    }
}

/// Keep the first `m` rows and the first `n` columns of each kept row; rows or
/// columns beyond the matrix's own extent are simply absent.
pub fn trunc_matrix<T: Copy>(data: Vec<Vec<T>>, m: usize, n: usize) -> (r: Vec<Vec<T>>)
    ensures
        r@.len() == if data@.len() < m {
            data@.len() as int
        } else {
            m as int
        },
        forall|i: int|
            0 <= i < r@.len() ==> (#[trigger] r@[i]@).len() == if data@[i]@.len() < n {
                data@[i]@.len() as int
            } else {
                n as int
            },
        forall|i: int, j: int|
            0 <= i < r@.len() && 0 <= j < r@[i]@.len() ==> (#[trigger] r@[i]@[j]) == data@[i]@[j],
{
    let rows: usize = if data.len() < m {
        data.len()
    } else {
        m
    };
    let mut r: Vec<Vec<T>> = Vec::new();
    for i in 0..rows
        invariant
            rows <= data.len(),
            rows == if data@.len() < m {
                data@.len() as int
            } else {
                m as int
            },
            r@.len() == i,
            forall|a: int|
                0 <= a < i ==> (#[trigger] r@[a]@).len() == if data@[a]@.len() < n {
                    data@[a]@.len() as int
                } else {
                    n as int
                },
            forall|a: int, b: int|
                0 <= a < i && 0 <= b < r@[a]@.len() ==> (#[trigger] r@[a]@[b]) == data@[a]@[b],
    {
        let cols: usize = if data[i].len() < n {
            data[i].len()
        } else {
            n
        };
        let mut newrow: Vec<T> = Vec::new();
        for j in 0..cols
            invariant
                i < data.len(),
                cols <= data@[i as int]@.len(),
                newrow@.len() == j,
                forall|b: int| 0 <= b < j ==> (#[trigger] newrow@[b]) == data@[i as int]@[b],
        {
            newrow.push(data[i][j]);
        }
        r.push(newrow);
    }
    r
}

} // verus!
