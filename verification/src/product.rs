use crate::value::{content, contents, Value, ValueView};
use itertools::Itertools;
use vstd::prelude::*;

verus! {

/// The product of the numbers of `lens`, which is one where there is none.
pub open spec fn volume(lens: Seq<nat>) -> nat
    decreases lens.len(),
{
    if lens.len() == 0 {
        1
    } else {
        volume(lens.drop_last()) * lens.last()
    }
}

/// The length of every field, in order.
pub open spec fn lengths<T>(fields: Seq<Seq<T>>) -> Seq<nat> {
    Seq::new(fields.len(), |i: int| fields[i].len())
}

/// The number of ways to pick one item from each of `fields`: the product of their
/// lengths.
pub open spec fn count<T>(fields: Seq<Seq<T>>) -> nat {
    volume(lengths(fields))
}

/// The cartesian product of `fields`: every row that holds one item of each field,
/// the rows ordered by the first field, then by the second, and so on, so that the
/// last field varies fastest. With no field there is one row, the empty one.
pub open spec fn product<T>(fields: Seq<Seq<T>>) -> Seq<Seq<T>>
    decreases fields.len(),
{
    if fields.len() == 0 {
        seq![Seq::<T>::empty()]
    } else {
        let rows = product(fields.drop_last());
        let last = fields.last();
        Seq::new(
            rows.len() * last.len(),
            |k: int| rows[k / (last.len() as int)].push(last[k % (last.len() as int)]),
        )
    }
}

/// The candidates of every field, each as the contents of its values.
pub open spec fn grid(fields: Seq<Vec<Value>>) -> Seq<Seq<ValueView>> {
    Seq::new(fields.len(), |i: int| contents(fields[i]@))
}

/// The product has as many rows as there are ways to pick one item per field.
pub proof fn lemma_product_len<T>(fields: Seq<Seq<T>>)
    ensures
        product(fields).len() == count(fields),
    decreases fields.len(),
{
    if fields.len() > 0 {
        lemma_product_len(fields.drop_last());
        assert(lengths(fields).drop_last() =~= lengths(fields.drop_last()));
    }
}

/// Every row of the product holds one item per field.
pub proof fn lemma_product_row_len<T>(fields: Seq<Seq<T>>, k: int)
    requires
        0 <= k < product(fields).len(),
    ensures
        product(fields)[k].len() == fields.len(),
    decreases fields.len(),
{
    if fields.len() > 0 {
        let rows = product(fields.drop_last());
        let m = fields.last().len() as int;
        assert(m > 0) by (nonlinear_arith)
            requires
                0 <= k < rows.len() * m,
                rows.len() >= 0,
        ;
        assert(0 <= k / m < rows.len()) by (nonlinear_arith)
            requires
                0 <= k < rows.len() * m,
                m > 0,
        ;
        lemma_product_row_len(fields.drop_last(), k / m);
    }
}

/// A zero among the numbers makes their product zero.
pub proof fn lemma_volume_zero(lens: Seq<nat>, i: int)
    requires
        0 <= i < lens.len(),
        lens[i] == 0,
    ensures
        volume(lens) == 0,
    decreases lens.len(),
{
    if i == lens.len() - 1 {
        assert(volume(lens.drop_last()) * 0 == 0) by (nonlinear_arith);
    } else {
        lemma_volume_zero(lens.drop_last(), i);
        assert(0 * lens.last() == 0) by (nonlinear_arith);
    }
}

/// The product of positive numbers is positive.
pub proof fn lemma_volume_positive(lens: Seq<nat>)
    requires
        forall|i: int| 0 <= i < lens.len() ==> lens[i] > 0,
    ensures
        volume(lens) >= 1,
    decreases lens.len(),
{
    if lens.len() > 0 {
        lemma_volume_positive(lens.drop_last());
        assert(volume(lens.drop_last()) * lens.last() >= 1) by (nonlinear_arith)
            requires
                volume(lens.drop_last()) >= 1,
                lens.last() >= 1,
        ;
    }
}

/// The product of the first `k` of some positive numbers is at least one and at
/// most the product of them all.
pub proof fn lemma_volume_prefix(lens: Seq<nat>, k: int)
    requires
        0 <= k <= lens.len(),
        forall|i: int| 0 <= i < lens.len() ==> lens[i] > 0,
    ensures
        1 <= volume(lens.take(k)) <= volume(lens),
    decreases lens.len() - k,
{
    lemma_volume_positive(lens.take(k));
    if k == lens.len() {
        assert(lens.take(k) =~= lens);
    } else {
        lemma_volume_prefix(lens, k + 1);
        lemma_volume_step(lens, k);
        assert(volume(lens.take(k)) <= volume(lens.take(k)) * lens[k]) by (nonlinear_arith)
            requires
                lens[k] >= 1,
                volume(lens.take(k)) >= 0,
        ;
    }
}

/// One more number multiplies the product of those before it.
pub proof fn lemma_volume_step(lens: Seq<nat>, k: int)
    requires
        0 <= k < lens.len(),
    ensures
        volume(lens.take(k + 1)) == volume(lens.take(k)) * lens[k],
{
    let next = lens.take(k + 1);
    assert(next.drop_last() =~= lens.take(k));
    assert(next.last() == lens[k]);
}

/// The product of `lens`, or `None` where it does not fit in a `usize`.
pub fn checked_volume(lens: &Vec<usize>) -> (total: Option<usize>)
    ensures
        match total {
            Some(n) => n == volume(lens@.map_values(|n: usize| n as nat)),
            None => volume(lens@.map_values(|n: usize| n as nat)) > usize::MAX,
        },
{
    let ghost all = lens@.map_values(|n: usize| n as nat);
    let mut i: usize = 0;
    while i < lens.len()
        invariant
            i <= lens@.len(),
            all == lens@.map_values(|n: usize| n as nat),
            forall|j: int| 0 <= j < i ==> all[j] > 0,
        decreases lens@.len() - i,
    {
        if lens[i] == 0 {
            proof {
                lemma_volume_zero(all, i as int);
            }
            return Some(0);
        }
        i += 1;
    }
    let mut total: usize = 1;
    let mut k: usize = 0;
    proof {
        assert(all.take(0).len() == 0);
    }
    while k < lens.len()
        invariant
            k <= lens@.len(),
            all == lens@.map_values(|n: usize| n as nat),
            forall|j: int| 0 <= j < all.len() ==> all[j] > 0,
            total == volume(all.take(k as int)),
        decreases lens@.len() - k,
    {
        proof {
            lemma_volume_step(all, k as int);
            lemma_volume_prefix(all, k + 1);
        }
        match total.checked_mul(lens[k]) {
            Some(next) => {
                total = next;
            },
            None => {
                return None;
            },
        }
        k += 1;
    }
    proof {
        assert(all.take(k as int) =~= all);
    }
    Some(total)
}

/// The pairs of an index below `n` and an index below `m`, through
/// `itertools::Itertools::cartesian_product` on the ranges `0..n` and `0..m`.
///
/// Trusted: the adaptor takes the first index from `0..n` in order and, for each of
/// its values, runs the second through all of `0..m`; so there are `n * m` pairs and
/// the pair at position `k` is `(k / m, k % m)`.
#[verifier::external_body]
fn index_pairs(n: usize, m: usize) -> (pairs: Vec<(usize, usize)>)
    requires
        n * m <= usize::MAX,
    ensures
        pairs@.len() == n * m,
        forall|k: int|
            0 <= k < n * m ==> #[trigger] pairs@[k] == (
                (k / (m as int)) as usize,
                (k % (m as int)) as usize,
            ),
{
    (0..n).cartesian_product(0..m).collect()
}

/// One more field for every row: each row of `rows` followed by each value of
/// `last`, the rows in order and, for each row, the values in order.
pub fn extend_rows(rows: &Vec<Vec<Value>>, last: &Vec<Value>) -> (out: Vec<Vec<Value>>)
    requires
        rows.len() * last.len() <= usize::MAX,
    ensures
        out@.len() == rows@.len() * last@.len(),
        forall|k: int|
            0 <= k < out@.len() ==> contents(#[trigger] out@[k]@) == contents(
                rows@[k / (last@.len() as int)]@,
            ).push(content(last@[k % (last@.len() as int)])),
{
    let n = rows.len();
    let m = last.len();
    let pairs = index_pairs(n, m);
    let mut out: Vec<Vec<Value>> = Vec::new();
    let mut p: usize = 0;
    while p < pairs.len()
        invariant
            n == rows@.len(),
            m == last@.len(),
            pairs@.len() == n * m,
            p <= pairs@.len(),
            out@.len() == p,
            forall|k: int|
                0 <= k < n * m ==> #[trigger] pairs@[k] == (
                    (k / (m as int)) as usize,
                    (k % (m as int)) as usize,
                ),
            forall|k: int|
                0 <= k < p ==> contents(#[trigger] out@[k]@) == contents(
                    rows@[k / (m as int)]@,
                ).push(content(last@[k % (m as int)])),
        decreases pairs@.len() - p,
    {
        let pair = pairs[p];
        let a: usize = pair.0;
        let b: usize = pair.1;
        proof {
            let k = p as int;
            let mi = m as int;
            assert(mi > 0) by (nonlinear_arith)
                requires
                    0 <= k < n * mi,
                    n >= 0,
            ;
            assert(0 <= k / mi < n) by (nonlinear_arith)
                requires
                    0 <= k < n * mi,
                    mi > 0,
            ;
            assert(0 <= k % mi < mi) by (nonlinear_arith)
                requires
                    mi > 0,
            ;
            assert(pairs@[k] == ((k / mi) as usize, (k % mi) as usize));
        }
        let mut row = crate::value::duplicate_all(&rows[a]);
        let ghost before = row@;
        let item = last[b].duplicate();
        row.push(item);
        proof {
            assert(contents(row@) =~= contents(before).push(content(item)));
        }
        out.push(row);
        p += 1;
    }
    out
}

/// The cartesian product of the fields' candidates, the last field varying fastest.
pub fn product_rows(fields: &Vec<Vec<Value>>) -> (rows: Vec<Vec<Value>>)
    requires
        count(grid(fields@)) <= usize::MAX,
    ensures
        grid(rows@) == product(grid(fields@)),
{
    let ghost all = grid(fields@);
    let mut i: usize = 0;
    while i < fields.len()
        invariant
            i <= fields@.len(),
            all == grid(fields@),
            forall|j: int| 0 <= j < i ==> all[j].len() > 0,
        decreases fields@.len() - i,
    {
        if fields[i].len() == 0 {
            proof {
                lemma_volume_zero(lengths(all), i as int);
                lemma_product_len(all);
                assert(grid(Seq::<Vec<Value>>::empty()) =~= product(all));
            }
            return Vec::new();
        }
        i += 1;
    }
    let mut rows: Vec<Vec<Value>> = Vec::new();
    rows.push(Vec::new());
    proof {
        assert(all.take(0).len() == 0);
        assert(contents(rows@[0]@) =~= Seq::<ValueView>::empty());
        assert(grid(rows@) =~= product(all.take(0)));
    }
    let mut k: usize = 0;
    while k < fields.len()
        invariant
            k <= fields@.len(),
            all == grid(fields@),
            count(all) <= usize::MAX,
            forall|j: int| 0 <= j < all.len() ==> all[j].len() > 0,
            grid(rows@) == product(all.take(k as int)),
        decreases fields@.len() - k,
    {
        let ghost prefix = all.take(k as int);
        let ghost next = all.take(k + 1);
        proof {
            lemma_volume_prefix(lengths(all), k + 1);
            assert(lengths(all).take(k + 1) =~= lengths(next));
            lemma_product_len(prefix);
            lemma_product_len(next);
            assert(next.drop_last() =~= prefix);
            assert(next.last() == all[k as int]);
            assert(grid(rows@).len() == rows@.len());
        }
        let extended = extend_rows(&rows, &fields[k]);
        proof {
            let m = fields@[k as int]@.len() as int;
            assert(all[k as int].len() == m);
            assert(grid(extended@).len() == product(next).len());
            assert forall|q: int| 0 <= q < extended@.len() implies grid(extended@)[q] == product(
                next,
            )[q] by {
                assert(m > 0);
                assert(0 <= q / m < rows@.len()) by (nonlinear_arith)
                    requires
                        0 <= q < rows@.len() * m,
                        m > 0,
                ;
                assert(0 <= q % m < m) by (nonlinear_arith)
                    requires
                        m > 0,
                ;
                assert(grid(rows@)[q / m] == product(prefix)[q / m]);
                assert(all[k as int][q % m] == content(fields@[k as int]@[q % m]));
            }
            assert(grid(extended@) =~= product(next));
        }
        rows = extended;
        k += 1;
    }
    proof {
        assert(all.take(k as int) =~= all);
    }
    rows
}

} // verus!
