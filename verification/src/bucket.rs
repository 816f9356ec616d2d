//! Power-of-two buckets for durations measured in microseconds.
use vstd::arithmetic::logarithm::{lemma_log0, lemma_log_s, log};
use vstd::arithmetic::power2::{lemma_pow2_unfold, pow2};
use vstd::prelude::*;

verus! {

/// Number of buckets that every bucketed scheduler keeps.
pub const NUM_BUCKETS: usize = 32;

/// The bucket that a duration of `us` microseconds belongs to: the base-two logarithm of the
/// duration, with the last bucket open to the right and anything up to one microsecond in bucket 0.
pub open spec fn bucket_of(us: nat) -> int {
    if us <= 1 {
        0
    } else if log(2, us as int) < NUM_BUCKETS - 1 {
        log(2, us as int)
    } else {
        NUM_BUCKETS - 1
    }
}

/// Whether bucket `b` covers `us` microseconds: `2^b <= us < 2^(b+1)`, where bucket 0 also takes
/// the zero duration and the last bucket has no upper bound.
pub open spec fn bucket_covers(b: int, us: nat) -> bool {
    &&& 0 <= b < NUM_BUCKETS
    &&& b > 0 ==> pow2(b as nat) <= us
    &&& b < NUM_BUCKETS - 1 ==> us < pow2((b + 1) as nat)
}

proof fn lemma_log_bounds(n: int)
    requires
        n >= 1,
    ensures
        log(2, n) >= 0,
        pow2(log(2, n) as nat) <= n < pow2((log(2, n) + 1) as nat),
    decreases n,
{
    if n < 2 {
        lemma_log0(2, n);
        vstd::arithmetic::power2::lemma2_to64();
    } else {
        lemma_log_bounds(n / 2);
        lemma_log_s(2, n);
        let l = log(2, n / 2);
        lemma_pow2_unfold((l + 1) as nat);
        lemma_pow2_unfold((l + 2) as nat);
    }
}

proof fn lemma_pow2_monotone(a: nat, b: nat)
    requires
        a <= b,
    ensures
        pow2(a) <= pow2(b),
    decreases b - a,
{
    if a < b {
        lemma_pow2_monotone(a, (b - 1) as nat);
        lemma_pow2_unfold(b);
    }
}

/// Every duration lies in the range of its bucket: at least `2^b` above bucket 0, and less than
/// `2^(b+1)` below bucket 31.
pub proof fn bucket_of_covers(us: nat)
    ensures
        bucket_covers(bucket_of(us), us),
        0 <= bucket_of(us) <= 31,
        bucket_of(us) > 0 ==> pow2(bucket_of(us) as nat) <= us,
        bucket_of(us) < 31 ==> us < pow2((bucket_of(us) + 1) as nat),
{
    vstd::arithmetic::power2::lemma2_to64();
    if us > 1 {
        lemma_log_bounds(us as int);
        let l = log(2, us as int);
        if l >= 31 {
            lemma_pow2_monotone(31, l as nat);
        }
    }
}

/// No duration lies in the range of two buckets.
pub proof fn bucket_ranges_disjoint(a: int, b: int, us: nat)
    requires
        bucket_covers(a, us),
        bucket_covers(b, us),
    ensures
        a == b,
{
    vstd::arithmetic::power2::lemma2_to64();
    if a < b {
        lemma_pow2_monotone((a + 1) as nat, b as nat);
    } else if b < a {
        lemma_pow2_monotone((b + 1) as nat, a as nat);
    }
}

/// A longer duration never lies in a lower bucket.
pub proof fn bucket_of_monotone(short: nat, long: nat)
    requires
        short <= long,
    ensures
        bucket_of(short) <= bucket_of(long),
{
    bucket_of_covers(short);
    bucket_of_covers(long);
    let a = bucket_of(short);
    let b = bucket_of(long);
    if b < a {
        lemma_pow2_monotone((b + 1) as nat, a as nat);
    }
}

/// A duration has reached a bucket above the first exactly when it is at least `2^b`.
pub proof fn bucket_is_reached(us: nat, b: int)
    requires
        0 < b < NUM_BUCKETS,
    ensures
        bucket_of(us) >= b <==> pow2(b as nat) <= us,
{
    bucket_of_covers(us);
    let c = bucket_of(us);
    if c >= b {
        lemma_pow2_monotone(b as nat, c as nat);
    } else {
        lemma_pow2_monotone((c + 1) as nat, b as nat);
    }
}

/// Returns the bucket of a duration of `us` microseconds.
pub fn micros_to_bucket(us: u128) -> (b: usize)
    ensures
        b == bucket_of(us as nat),
        b <= 31,
        b > 0 ==> pow2(b as nat) <= us,
        b < 31 ==> us < pow2((b + 1) as nat),
{
    proof {
        bucket_of_covers(us as nat);
    }
    if us <= 1 {
        return 0;
    }
    let mut rest: u128 = us;
    let mut b: usize = 0;
    while rest > 1 && b < NUM_BUCKETS - 1
        invariant
            us > 1,
            rest >= 1,
            b <= NUM_BUCKETS - 1,
            log(2, us as int) == b + log(2, rest as int),
        decreases rest,
    {
        proof {
            lemma_log_s(2, rest as int);
        }
        rest = rest / 2;
        b = b + 1;
    }
    proof {
        lemma_log_bounds(rest as int);
        if rest == 1 {
            lemma_log0(2, 1);
        }
    }
    b
}

/// Whether `samples` lists, for each bucket that a duration of `total` microseconds passed through,
/// what then remained of it: `samples[b]` is what remained when it reached `2^b` microseconds.
pub open spec fn remaining_at_entry(total: nat, samples: Seq<u128>) -> bool {
    &&& samples.len() <= NUM_BUCKETS
    &&& forall|b: int|
        0 <= b < samples.len() ==> #[trigger] samples[b] == total - pow2(b as nat)
    &&& samples.len() < NUM_BUCKETS ==> total < pow2(samples.len())
}

/// A duration determines its samples.
pub proof fn remaining_at_entry_is_unique(total: nat, a: Seq<u128>, b: Seq<u128>)
    requires
        remaining_at_entry(total, a),
        remaining_at_entry(total, b),
    ensures
        a == b,
{
    if a.len() < b.len() {
        assert(b[a.len() as int] == total - pow2(a.len()));
    } else if b.len() < a.len() {
        assert(a[b.len() as int] == total - pow2(b.len()));
    }
    assert(a =~= b) by {
        assert forall|i: int| 0 <= i < a.len() implies a[i] == b[i] by {
            assert(a[i] == total - pow2(i as nat));
            assert(b[i] == total - pow2(i as nat));
        }
    }
}

/// Lists what remained of a duration in microseconds at its entry into each bucket that it passed
/// through.
pub fn entry_samples(total: u128) -> (samples: Vec<u128>)
    ensures
        remaining_at_entry(total as nat, samples@),
{
    let mut samples: Vec<u128> = Vec::new();
    let mut threshold: u128 = 1;
    proof {
        vstd::arithmetic::power2::lemma2_to64();
    }
    while samples.len() < NUM_BUCKETS && threshold <= total
        invariant
            samples@.len() <= NUM_BUCKETS,
            threshold == pow2(samples@.len()),
            threshold <= 0x1_0000_0000,
            forall|b: int|
                0 <= b < samples@.len() ==> #[trigger] samples@[b] == total - pow2(b as nat),
        decreases NUM_BUCKETS - samples@.len(),
    {
        samples.push(total - threshold);
        proof {
            vstd::arithmetic::power2::lemma2_to64();
            lemma_pow2_unfold(samples@.len());
            lemma_pow2_monotone(samples@.len(), 32);
        }
        threshold = threshold * 2;
    }
    samples
}

/// There is a sample for exactly those of the 32 buckets whose entry `2^b` the duration reached,
/// and what remained then makes up the duration together with the entry.
pub proof fn samples_complete_the_duration(total: nat, samples: Seq<u128>, b: int)
    requires
        remaining_at_entry(total, samples),
        0 <= b < 32,
    ensures
        samples.len() <= 32,
        b < samples.len() <==> pow2(b as nat) <= total,
        b < samples.len() ==> samples[b] + pow2(b as nat) == total,
{
    if b < samples.len() {
        assert(samples[b] == total - pow2(b as nat));
    } else {
        lemma_pow2_monotone(samples.len(), b as nat);
    }
}

} // verus!
