use vstd::prelude::*;

verus! {

/// Smallest value of `s`, or 0 when `s` is empty.
pub open spec fn lowest(s: Seq<usize>) -> nat
    decreases s.len(),
{
    if s.len() == 0 {
        0
    } else if s.len() == 1 {
        s[0] as nat
    } else {
        let m = lowest(s.drop_last());
        if (s.last() as nat) < m {
            s.last() as nat
        } else {
            m
        }
    }
}

/// Largest value of `s`, or 0 when `s` is empty.
pub open spec fn highest(s: Seq<usize>) -> nat
    decreases s.len(),
{
    if s.len() == 0 {
        0
    } else if s.len() == 1 {
        s[0] as nat
    } else {
        let m = highest(s.drop_last());
        if (s.last() as nat) > m {
            s.last() as nat
        } else {
            m
        }
    }
}

/// Width of each of `num_buckets` equal buckets that cover `lo..=hi`:
/// `ceil((hi - lo) / num_buckets)`, and at least 1.
pub open spec fn bucket_width(lo: nat, hi: nat, num_buckets: nat) -> nat {
    let spread = hi - lo;
    let ceil = if spread % (num_buckets as int) == 0 {
        spread / (num_buckets as int)
    } else {
        spread / (num_buckets as int) + 1
    };
    if ceil < 1 {
        1
    } else {
        ceil as nat
    }
}

/// Bucket of `v`: `floor((v - lo) / width)`, held to the last bucket.
pub open spec fn bucket_of(v: nat, lo: nat, width: nat, num_buckets: nat) -> int {
    let q = (v - lo) / (width as int);
    if q < num_buckets - 1 {
        q
    } else {
        num_buckets - 1
    }
}

/// Number of values of `s` that fall in bucket `b`.
pub open spec fn count_in(s: Seq<usize>, lo: nat, width: nat, num_buckets: nat, b: int) -> nat
    decreases s.len(),
{
    if s.len() == 0 {
        0
    } else {
        count_in(s.drop_last(), lo, width, num_buckets, b) + if bucket_of(
            s.last() as nat,
            lo,
            width,
            num_buckets,
        ) == b {
            1nat
        } else {
            0nat
        }
    }
}

/// Sum of the counts of buckets `0..k`.
pub open spec fn total_in(s: Seq<usize>, lo: nat, width: nat, num_buckets: nat, k: nat) -> nat
    decreases k,
{
    if k == 0 {
        0
    } else {
        total_in(s, lo, width, num_buckets, (k - 1) as nat) + count_in(
            s,
            lo,
            width,
            num_buckets,
            k - 1,
        )
    }
}

/// Sum of the values of `s`.
pub open spec fn sum(s: Seq<usize>) -> nat
    decreases s.len(),
{
    if s.len() == 0 {
        0
    } else {
        sum(s.drop_last()) + s.last() as nat
    }
}

/// The bucket counts of `batch` split into `num_buckets` buckets that start at
/// its smallest value.
pub open spec fn bin_counts(batch: Seq<usize>, num_buckets: nat) -> Seq<nat> {
    let lo = lowest(batch);
    let width = bucket_width(lo, highest(batch), num_buckets);
    Seq::new(num_buckets, |b: int| count_in(batch, lo, width, num_buckets, b))
}

/// A batch of outcomes split into equal-width buckets: bucket `i` holds the
/// values from `min + i * width` on, the last one everything above.
pub struct Histogram {
    pub min: usize,
    pub width: usize,
    pub counts: Vec<usize>,
}

proof fn lemma_extremes(s: Seq<usize>)
    ensures
        forall|i: int| 0 <= i < s.len() ==> lowest(s) <= #[trigger] s[i] <= highest(s),
        lowest(s) <= highest(s),
    decreases s.len(),
{
    if s.len() > 1 {
        let p = s.drop_last();
        lemma_extremes(p);
        assert forall|i: int| 0 <= i < s.len() implies lowest(s) <= #[trigger] s[i] <= highest(
            s,
        ) by {
            if i < p.len() {
                assert(s[i] == p[i]);
            }
        }
    }
}

proof fn lemma_count_bounded(s: Seq<usize>, lo: nat, width: nat, num_buckets: nat, b: int)
    ensures
        count_in(s, lo, width, num_buckets, b) <= s.len(),
    decreases s.len(),
{
    if s.len() > 0 {
        lemma_count_bounded(s.drop_last(), lo, width, num_buckets, b);
    }
}

proof fn lemma_sum_update(s: Seq<usize>, j: int, x: usize)
    requires
        0 <= j < s.len(),
    ensures
        sum(s.update(j, x)) == sum(s) - s[j] + x,
    decreases s.len(),
{
    let t = s.update(j, x);
    if j < s.len() - 1 {
        assert(t.drop_last() =~= s.drop_last().update(j, x));
        lemma_sum_update(s.drop_last(), j, x);
    } else {
        assert(t.drop_last() =~= s.drop_last());
    }
}

proof fn lemma_sum_zeros(s: Seq<usize>)
    requires
        forall|i: int| 0 <= i < s.len() ==> s[i] == 0,
    ensures
        sum(s) == 0,
    decreases s.len(),
{
    if s.len() > 0 {
        lemma_sum_zeros(s.drop_last());
    }
}

proof fn lemma_total_push(
    s: Seq<usize>,
    x: usize,
    lo: nat,
    width: nat,
    num_buckets: nat,
    k: nat,
)
    ensures
        total_in(s.push(x), lo, width, num_buckets, k) == total_in(s, lo, width, num_buckets, k)
            + if 0 <= bucket_of(x as nat, lo, width, num_buckets) < k {
            1nat
        } else {
            0nat
        },
    decreases k,
{
    assert(s.push(x).drop_last() =~= s);
    if k > 0 {
        lemma_total_push(s, x, lo, width, num_buckets, (k - 1) as nat);
    }
}

/// Splitting a batch into buckets loses no value and counts none twice:
/// every value falls in exactly one of the `num_buckets` buckets, so the
/// counts add up to the length of the batch; the largest value lands in the
/// last bucket or earlier.
pub proof fn lemma_bins_partition(batch: Seq<usize>, num_buckets: nat)
    requires
        num_buckets > 0,
    ensures
        forall|i: int|
            0 <= i < batch.len() ==> 0 <= #[trigger] bucket_of(
                batch[i] as nat,
                lowest(batch),
                bucket_width(lowest(batch), highest(batch), num_buckets),
                num_buckets,
            ) < num_buckets,
        batch.len() > 0 ==> bucket_of(
            highest(batch),
            lowest(batch),
            bucket_width(lowest(batch), highest(batch), num_buckets),
            num_buckets,
        ) <= num_buckets - 1,
        total_in(
            batch,
            lowest(batch),
            bucket_width(lowest(batch), highest(batch), num_buckets),
            num_buckets,
            num_buckets,
        ) == batch.len(),
{
    let lo = lowest(batch);
    let width = bucket_width(lo, highest(batch), num_buckets);
    lemma_extremes(batch);
    lemma_total_covers(batch, lo, width, num_buckets);
}

proof fn lemma_total_covers(s: Seq<usize>, lo: nat, width: nat, num_buckets: nat)
    requires
        num_buckets > 0,
        width > 0,
        forall|i: int| 0 <= i < s.len() ==> lo <= #[trigger] s[i],
    ensures
        total_in(s, lo, width, num_buckets, num_buckets) == s.len(),
    decreases s.len(),
{
    if s.len() == 0 {
        lemma_total_empty(s, lo, width, num_buckets, num_buckets);
    } else {
        let p = s.drop_last();
        assert(p.push(s.last()) =~= s);
        lemma_total_covers(p, lo, width, num_buckets);
        lemma_total_push(p, s.last(), lo, width, num_buckets, num_buckets);
        assert(lo <= s[s.len() - 1]);
    }
}

proof fn lemma_total_empty(s: Seq<usize>, lo: nat, width: nat, num_buckets: nat, k: nat)
    requires
        s.len() == 0,
    ensures
        total_in(s, lo, width, num_buckets, k) == 0,
    decreases k,
{
    if k > 0 {
        lemma_total_empty(s, lo, width, num_buckets, (k - 1) as nat);
    }
}

/// Splits `batch` into `num_buckets` buckets of equal width, starting at its
/// smallest value, and counts the values in each.
pub fn bin(batch: &Vec<usize>, num_buckets: usize) -> (h: Histogram)
    requires
        num_buckets > 0,
    ensures
        h.min == lowest(batch@),
        h.width == bucket_width(lowest(batch@), highest(batch@), num_buckets as nat),
        h.counts@.len() == num_buckets,
        forall|b: int|
            0 <= b < num_buckets ==> h.counts@[b] == #[trigger] bin_counts(
                batch@,
                num_buckets as nat,
            )[b],
        sum(h.counts@) == batch@.len(),
{
    let mut min: usize = 0;
    let mut max: usize = 0;
    let mut i: usize = 0;
    while i < batch.len()
        invariant
            i <= batch.len(),
            min == lowest(batch@.take(i as int)),
            max == highest(batch@.take(i as int)),
        decreases batch.len() - i,
    {
        proof {
            assert(batch@.take(i as int + 1).drop_last() =~= batch@.take(i as int));
        }
        let v = batch[i];
        if i == 0 || v < min {
            min = v;
        }
        if i == 0 || v > max {
            max = v;
        }
        i += 1;
    }
    assert(batch@.take(batch@.len() as int) =~= batch@);
    proof {
        lemma_extremes(batch@);
    }
    let spread = max - min;
    let mut width: usize = spread / num_buckets;
    if spread % num_buckets != 0 {
        proof {
            let q = spread as int / num_buckets as int;
            vstd::arithmetic::div_mod::lemma_fundamental_div_mod(
                spread as int,
                num_buckets as int,
            );
            assert(q < usize::MAX) by (nonlinear_arith)
                requires
                    spread == num_buckets * q + spread as int % num_buckets as int,
                    spread as int % num_buckets as int >= 0,
                    num_buckets >= 2,
                    q >= 0,
                    spread <= usize::MAX,
            ;
        }
        width += 1;
    }
    if width < 1 {
        width = 1;
    }
    let ghost w = width as nat;
    let mut counts: Vec<usize> = Vec::new();
    let mut b: usize = 0;
    while b < num_buckets
        invariant
            b <= num_buckets,
            counts@.len() == b,
            forall|k: int| 0 <= k < b ==> counts@[k] == 0,
        decreases num_buckets - b,
    {
        counts.push(0);
        b += 1;
    }
    proof {
        lemma_sum_zeros(counts@);
    }
    let mut j: usize = 0;
    while j < batch.len()
        invariant
            j <= batch.len(),
            num_buckets > 0,
            width > 0,
            min == lowest(batch@),
            width == bucket_width(lowest(batch@), highest(batch@), num_buckets as nat),
            forall|k: int| 0 <= k < batch@.len() ==> min <= #[trigger] batch@[k],
            counts@.len() == num_buckets,
            forall|k: int|
                0 <= k < num_buckets ==> counts@[k] == #[trigger] count_in(
                    batch@.take(j as int),
                    min as nat,
                    w,
                    num_buckets as nat,
                    k,
                ),
            w == width,
            sum(counts@) == j,
        decreases batch.len() - j,
    {
        let v = batch[j];
        let q = (v - min) / width;
        let idx: usize = if q < num_buckets - 1 {
            q
        } else {
            num_buckets - 1
        };
        proof {
            assert(batch@.take(j as int + 1).drop_last() =~= batch@.take(j as int));
            assert(batch@.take(j as int + 1).last() == v);
            lemma_count_bounded(batch@.take(j as int), min as nat, w, num_buckets as nat, idx as int);
            assert(idx == bucket_of(v as nat, min as nat, w, num_buckets as nat));
        }
        let c = counts[idx];
        proof {
            lemma_sum_update(counts@, idx as int, (c + 1) as usize);
        }
        let ghost before = counts@;
        counts.set(idx, c + 1);
        proof {
            assert forall|k: int| 0 <= k < num_buckets implies counts@[k] == #[trigger] count_in(
                batch@.take(j as int + 1),
                min as nat,
                w,
                num_buckets as nat,
                k,
            ) by {
                let t = batch@.take(j as int + 1);
                assert(before[k] == count_in(t.drop_last(), min as nat, w, num_buckets as nat, k));
            }
        }
        j += 1;
    }
    assert(batch@.take(batch@.len() as int) =~= batch@);
    Histogram { min, width, counts }
}

} // verus!
