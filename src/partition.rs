use crate::arith::{
    ceil_div, lemma_ceil_div_above, lemma_ceil_div_below, lemma_ceil_div_covers,
    lemma_ceil_div_exact, lemma_ceil_div_nonneg,
};
use vstd::prelude::*;

verus! {

/// The lines that each bucket holds.
pub open spec fn buckets_view(buckets: Seq<Vec<String>>) -> Seq<Seq<String>> {
    buckets.map_values(|b: Vec<String>| b@)
}

/// Striping `lines` over `k` workers: bucket `j` holds the lines at positions
/// `j, j + k, j + 2k, ...`, and there is one bucket per line up to `k`.
pub open spec fn stripe_spec(lines: Seq<String>, k: int) -> Seq<Seq<String>> {
    let n = lines.len() as int;
    Seq::new(
        (if n < k { n } else { k }) as nat,
        |j: int| Seq::new(ceil_div(n - j, k) as nat, |t: int| lines[j + t * k]),
    )
}

/// The length of each run when `n` lines are cut into at most `k` runs.
pub open spec fn chunk_size(n: int, k: int) -> int {
    ceil_div(n, k)
}

/// The number of runs of `chunk_size(n, k)` lines that `n` lines make.
pub open spec fn chunk_count(n: int, k: int) -> int {
    if n == 0 {
        0
    } else {
        ceil_div(n, chunk_size(n, k))
    }
}

/// Chunking `lines` for `k` workers: contiguous runs of `chunk_size` lines,
/// the last one possibly shorter.
pub open spec fn chunk_spec(lines: Seq<String>, k: int) -> Seq<Seq<String>> {
    let n = lines.len() as int;
    let s = chunk_size(n, k);
    Seq::new(
        chunk_count(n, k) as nat,
        |j: int| lines.subrange(j * s, if (j + 1) * s < n { (j + 1) * s } else { n }),
    )
}

/// Splits `input` over `num` workers round-robin: line `i` goes to bucket `i % num`.
pub fn stripe(num: usize, input: &Vec<String>) -> (buckets: Vec<Vec<String>>)
    requires
        num >= 1,
    ensures
        buckets_view(buckets@) == stripe_spec(input@, num as int),
{
    let n = input.len();
    let count: usize = if n < num { n } else { num };
    let ghost spec_buckets = stripe_spec(input@, num as int);
    let mut buckets: Vec<Vec<String>> = Vec::new();
    let mut j: usize = 0;
    while j < count
        invariant
            n == input.len(),
            num >= 1,
            count == spec_buckets.len(),
            spec_buckets == stripe_spec(input@, num as int),
            j <= count,
            buckets@.len() == j,
            forall|b: int| 0 <= b < j ==> #[trigger] buckets@[b]@ == spec_buckets[b],
        decreases count - j,
    {
        let mut bucket: Vec<String> = Vec::new();
        let mut i: usize = j;
        assert(bucket@.len() * (num as int) == 0) by (nonlinear_arith)
            requires
                bucket@.len() == 0,
        ;
        loop
            invariant_except_break
                i as int == j as int + bucket@.len() * (num as int),
            invariant
                n == input.len(),
                num >= 1,
                j < count,
                count <= n,
                i < n,
                forall|s: int|
                    #![trigger bucket@[s]]
                    0 <= s < bucket@.len() ==> bucket@[s] == input@[j as int + s * (num as int)],
            ensures
                bucket@.len() >= 1,
                (bucket@.len() - 1) * (num as int) < n - j,
                n - j <= bucket@.len() * (num as int),
                forall|s: int|
                    #![trigger bucket@[s]]
                    0 <= s < bucket@.len() ==> bucket@[s] == input@[j as int + s * (num as int)],
            decreases n - i,
        {
            let ghost t = bucket@.len() as int;
            let ghost before = bucket@;
            bucket.push(input[i].clone());
            assert(bucket@[t] == input@[i as int]);
            assert(forall|s: int| 0 <= s < t ==> before[s] == #[trigger] bucket@[s]);
            assert((t + 1) * (num as int) == t * (num as int) + num) by (nonlinear_arith);
            if n - i <= num {
                break;
            }
            i = i + num;
        }
        proof {
            let t = bucket@.len() as int;
            lemma_ceil_div_exact(n - j, num as int, t);
            assert(bucket@ =~= spec_buckets[j as int]);
        }
        buckets.push(bucket);
        j = j + 1;
    }
    assert(buckets_view(buckets@) =~= spec_buckets);
    buckets
}

/// Splits `input` into contiguous runs of `ceil(n / num)` lines, one run per worker.
pub fn chunk(num: usize, input: &Vec<String>) -> (buckets: Vec<Vec<String>>)
    requires
        num >= 1,
    ensures
        buckets_view(buckets@) == chunk_spec(input@, num as int),
{
    let n = input.len();
    let ghost spec_buckets = chunk_spec(input@, num as int);
    let mut buckets: Vec<Vec<String>> = Vec::new();
    if n == 0 {
        assert(buckets_view(buckets@) =~= spec_buckets);
        return buckets;
    }
    let size: usize = if n % num == 0 {
        n / num
    } else {
        proof {
            vstd::arithmetic::div_mod::lemma_fundamental_div_mod(n as int, num as int);
            let q = n as int / num as int;
            assert(q < n) by (nonlinear_arith)
                requires
                    n as int == num as int * q + n as int % num as int,
                    n as int % num as int > 0,
                    num >= 1,
                    q >= 0,
            ;
        }
        n / num + 1
    };
    proof {
        lemma_size_is_ceil(n as int, num as int, size as int);
    }
    let mut start: usize = 0;
    assert(buckets@.len() * (size as int) == 0) by (nonlinear_arith)
        requires
            buckets@.len() == 0,
    ;
    while start < n
        invariant
            n == input.len(),
            n > 0,
            size >= 1,
            size as int == chunk_size(n as int, num as int),
            spec_buckets == chunk_spec(input@, num as int),
            start <= n,
            start < n ==> start as int == buckets@.len() * (size as int),
            start == n ==> buckets@.len() >= 1 && (buckets@.len() - 1) * (size as int) < n
                && n <= buckets@.len() * (size as int),
            forall|b: int|
                #![trigger buckets@[b]]
                0 <= b < buckets@.len() ==> buckets@[b]@ == input@.subrange(
                    b * size,
                    if (b + 1) * size < n {
                        (b + 1) * size
                    } else {
                        n as int
                    },
                ),
        decreases n - start,
    {
        let ghost b = buckets@.len() as int;
        let end: usize = if n - start <= size {
            n
        } else {
            start + size
        };
        let mut bucket: Vec<String> = Vec::new();
        let mut i: usize = start;
        while i < end
            invariant
                n == input.len(),
                start <= i <= end,
                end <= n,
                bucket@ == input@.subrange(start as int, i as int),
            decreases end - i,
        {
            bucket.push(input[i].clone());
            i = i + 1;
            assert(bucket@ =~= input@.subrange(start as int, i as int));
        }
        assert((b + 1) * (size as int) == b * (size as int) + size) by (nonlinear_arith);
        buckets.push(bucket);
        start = end;
    }
    proof {
        let b = buckets@.len() as int;
        lemma_ceil_div_exact(n as int, size as int, b);
    }
    assert(buckets_view(buckets@) =~= spec_buckets);
    buckets
}

/// Entry `t` of stripe bucket `j` is the line at position `j + t * k`.
pub open spec fn stripe_entry_holds(lines: Seq<String>, k: int, j: int, t: int) -> bool {
    j + t * k < lines.len() && stripe_spec(lines, k)[j][t] == lines[j + t * k]
}

/// The line at position `i` is entry `i / k` of stripe bucket `i % k`.
pub open spec fn stripe_slot_holds(lines: Seq<String>, k: int, i: int) -> bool {
    i % k < stripe_spec(lines, k).len() && i / k < stripe_spec(lines, k)[i % k].len()
        && stripe_spec(lines, k)[i % k][i / k] == lines[i]
}

/// Striping never makes more buckets than workers nor an empty bucket, and it
/// places every line exactly once: the line at position `i` is entry `i / k` of
/// bucket `i % k`, and entry `t` of bucket `j` is the line at position `j + t * k`.
pub proof fn lemma_stripe_partitions(lines: Seq<String>, k: int)
    requires
        k >= 1,
    ensures
        stripe_spec(lines, k).len() <= k,
        forall|j: int|
            #![trigger stripe_spec(lines, k)[j]]
            0 <= j < stripe_spec(lines, k).len() ==> stripe_spec(lines, k)[j].len() >= 1,
        forall|j: int, t: int|
            0 <= j < stripe_spec(lines, k).len() && 0 <= t < stripe_spec(lines, k)[j].len()
                ==> #[trigger] stripe_entry_holds(lines, k, j, t),
        forall|i: int|
            0 <= i < lines.len() ==> #[trigger] stripe_slot_holds(lines, k, i),
{
    assert forall|j: int|
        #![trigger stripe_spec(lines, k)[j]]
        0 <= j < stripe_spec(lines, k).len() implies stripe_spec(lines, k)[j].len() >= 1 by {
        lemma_ceil_div_nonneg((lines.len() as int) - j, k);
    }
    assert forall|j: int, t: int|
        0 <= j < stripe_spec(lines, k).len() && 0 <= t < stripe_spec(lines, k)[j].len()
            implies #[trigger] stripe_entry_holds(lines, k, j, t) by {
        if t * k >= (lines.len() as int) - j {
            lemma_ceil_div_below((lines.len() as int) - j, k, t);
        }
    }
    assert forall|i: int| 0 <= i < lines.len() implies #[trigger] stripe_slot_holds(
        lines,
        k,
        i,
    ) by {
        vstd::arithmetic::div_mod::lemma_fundamental_div_mod(i, k);
        let q = i / k;
        let r = i % k;
        assert(q >= 0) by (nonlinear_arith)
            requires
                i == k * q + r,
                0 <= r < k,
                i >= 0,
        ;
        assert(q * k == k * q) by (nonlinear_arith);
        lemma_ceil_div_above((lines.len() as int) - r, k, q);
    }
}

/// Chunking never makes more buckets than workers nor an empty bucket, and the
/// buckets joined in order give back the input.
pub proof fn lemma_chunk_partitions(lines: Seq<String>, k: int)
    requires
        k >= 1,
    ensures
        chunk_spec(lines, k).len() <= k,
        forall|j: int|
            0 <= j < chunk_spec(lines, k).len() ==> #[trigger] chunk_spec(lines, k)[j].len()
                >= 1,
        chunk_spec(lines, k).flatten() == lines,
{
    let n = lines.len() as int;
    let cs = chunk_spec(lines, k);
    if n == 0 {
        assert(cs.flatten() =~= lines);
    } else {
        let s = chunk_size(n, k);
        lemma_ceil_div_nonneg(n, k);
        lemma_ceil_div_covers(n, k);
        assert(k * s == s * k) by (nonlinear_arith);
        lemma_ceil_div_below(n, s, k);
        assert forall|j: int| 0 <= j < cs.len() implies #[trigger] cs[j].len() >= 1 by {
            if j * s >= n {
                lemma_ceil_div_below(n, s, j);
            }
            assert((j + 1) * s == j * s + s) by (nonlinear_arith);
        }
        lemma_ceil_div_covers(n, s);
        lemma_chunk_prefix(lines, k, cs.len() as int);
        assert(cs.take(cs.len() as int) =~= cs);
        assert(lines.subrange(0, n) =~= lines);
    }
}

/// The first `b` chunks joined give the lines before `min(b * size, n)`.
proof fn lemma_chunk_prefix(lines: Seq<String>, k: int, b: int)
    requires
        k >= 1,
        lines.len() > 0,
        0 <= b <= chunk_spec(lines, k).len(),
    ensures
        chunk_spec(lines, k).take(b).flatten() == lines.subrange(
            0,
            if b * chunk_size(lines.len() as int, k) < lines.len() {
                b * chunk_size(lines.len() as int, k)
            } else {
                lines.len() as int
            },
        ),
    decreases b,
{
    let n = lines.len() as int;
    let s = chunk_size(n, k);
    let cs = chunk_spec(lines, k);
    lemma_ceil_div_nonneg(n, k);
    if b == 0 {
        assert(cs.take(0) =~= Seq::<Seq<String>>::empty());
        assert(b * s == 0) by (nonlinear_arith)
            requires
                b == 0,
        ;
        assert(lines.subrange(0, 0) =~= Seq::<String>::empty());
    } else {
        lemma_chunk_prefix(lines, k, b - 1);
        assert(cs.take(b) =~= cs.take(b - 1).push(cs[b - 1]));
        cs.take(b - 1).lemma_flatten_push(cs[b - 1]);
        assert(b * s == (b - 1) * s + s) by (nonlinear_arith);
        if (b - 1) * s >= n {
            lemma_ceil_div_below(n, s, b - 1);
        }
        assert(lines.subrange(0, (b - 1) * s) + cs[b - 1] =~= lines.subrange(
            0,
            if b * s < n {
                b * s
            } else {
                n
            },
        ));
    }
}

/// The run length `size` computed from `n / k` and `n % k` is `ceil_div(n, k)`.
proof fn lemma_size_is_ceil(n: int, k: int, size: int)
    requires
        n > 0,
        k >= 1,
        size == (if n % k == 0 { n / k } else { n / k + 1 }),
    ensures
        size == chunk_size(n, k),
        size >= 1,
{
    vstd::arithmetic::div_mod::lemma_fundamental_div_mod(n, k);
    let q = n / k;
    let r = n % k;
    if r == 0 {
        assert(q >= 1 && (q - 1) * k < n && n <= q * k) by (nonlinear_arith)
            requires
                n == k * q + r,
                r == 0,
                n > 0,
                k >= 1,
        ;
        lemma_ceil_div_exact(n, k, q);
    } else {
        assert(q >= 0 && q * k < n && n <= (q + 1) * k) by (nonlinear_arith)
            requires
                n == k * q + r,
                0 < r < k,
                n > 0,
                k >= 1,
        ;
        lemma_ceil_div_exact(n, k, q + 1);
    }
}

} // verus!
