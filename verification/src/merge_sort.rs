//! The bounded-depth parallel merge sort.
//!
//! `sort` validates the requested fork depth, allocates one scratch buffer of
//! the input's length, and hands the pair of buffers to the recursive
//! `divide`. Each recursion level splits both buffers at the same midpoint,
//! runs the two sub-sorts as a fork-join pair with the buffer roles swapped,
//! and merges the two sorted halves back into the buffer it was called on.
//! A node whose depth budget is exhausted falls back to a sequential sort.
//!
//! Because the roles of the two buffers alternate at every level, a call of
//! `divide` at an even remaining depth sorts the contents of its first
//! buffer, and at an odd remaining depth the contents of its second buffer;
//! `sort` passes the data and the scratch buffer in the order that makes the
//! sorted result land back in the caller's sequence at either parity.

use vstd::prelude::*;

verus! {

broadcast use
    vstd::seq_lib::group_to_multiset_ensures,
    vstd::seq_lib::lemma_multiset_commutative,
    vstd::multiset::group_multiset_axioms,
;

/// A sequence is sorted in ascending order.
pub open spec fn sorted(s: Seq<u64>) -> bool {
    forall|i: int, j: int| 0 <= i <= j < s.len() ==> s[i] <= s[j]
}

/// The number of times a range of length `n` can be halved (upper half
/// rounded up) before it reaches length one: the ceiling of the base-two
/// logarithm of `n`, and the largest fork depth at which no split
/// degenerates below a single element.
pub open spec fn clog2(n: nat) -> nat
    decreases n,
{
    if n <= 1 {
        0
    } else {
        1 + clog2((n - n / 2) as nat)
    }
}

/// One doubled `k` times: the length of the largest range that a fork depth
/// of `k` can split down to single elements.
pub open spec fn pow2(k: nat) -> nat
    decreases k,
{
    if k == 0 {
        1
    } else {
        2 * pow2((k - 1) as nat)
    }
}

/// `clog2` is the ceiling base-two logarithm: `clog2(n)` halvings reach a
/// range that holds `n` elements, and no smaller number of halvings does.
pub proof fn lemma_clog2_is_ceil_log2(n: nat)
    requires
        1 <= n,
    ensures
        n <= pow2(clog2(n)),
        clog2(n) >= 1 ==> pow2((clog2(n) - 1) as nat) < n,
    decreases n,
{
    if n > 1 {
        let m = (n - n / 2) as nat;
        lemma_clog2_is_ceil_log2(m);
        assert(clog2(n) == 1 + clog2(m));
        assert(pow2((1 + clog2(m)) as nat) == 2 * pow2(clog2(m)));
        assert(n <= 2 * m);
        if clog2(m) == 0 {
            assert(pow2((clog2(n) - 1) as nat) == 1);
        } else {
            assert(pow2(clog2(m)) == 2 * pow2((clog2(m) - 1) as nat));
            assert(n >= 2 * m - 1);
        }
    }
}

/// A fork depth is valid for a sequence of length `n` when it does not
/// exceed the feasible split depth; a sequence of length at most one is
/// trivially sorted and accepts any depth.
pub open spec fn valid_levels(levels: int, n: nat) -> bool {
    n <= 1 || levels <= clog2(n)
}

/// The one rejected configuration: a fork depth larger than the feasible
/// split depth of the sequence. It is detected before any work starts, so a
/// failed sort leaves its input untouched. A scratch-buffer allocation
/// failure is not reported through this type: the allocator aborts the
/// process before the sort writes anything.
#[derive(Clone, Copy, Debug, PartialEq, Eq, Structural)]
pub enum SortError {
    InvalidConfiguration,
}

/// The largest valid fork depth for a sequence of length `n`: the ceiling
/// base-two logarithm of `n`.
pub fn max_levels(n: usize) -> (k: usize)
    ensures
        k as nat == clog2(n as nat),
        1 <= n ==> n as nat <= pow2(k as nat),
        1 <= k ==> pow2((k - 1) as nat) < n as nat,
{
    proof {
        if n >= 1 {
            lemma_clog2_is_ceil_log2(n as nat);
        }
    }
    let mut m: usize = n;
    let mut k: usize = 0;
    while m > 1
        invariant
            m <= n,
            k <= n - m,
            k + clog2(m as nat) == clog2(n as nat),
        decreases m,
    {
        m = m - m / 2;
        k = k + 1;
    }
    k
}

/// Whether `levels` is a valid fork depth for a sequence of length `n`.
pub fn levels_are_valid(levels: usize, n: usize) -> (valid: bool)
    ensures
        valid == valid_levels(levels as int, n as nat),
{
    n <= 1 || levels <= max_levels(n)
}

/// The post-condition check consumed by drivers and tests: whether the
/// sequence is sorted in ascending order.
pub fn is_sorted(v: &Vec<u64>) -> (r: bool)
    ensures
        r == sorted(v@),
{
    if v.len() <= 1 {
        return true;
    }
    let mut i: usize = 1;
    while i < v.len()
        invariant
            1 <= i <= v@.len(),
            forall|p: int, q: int| 0 <= p <= q < i ==> v@[p] <= v@[q],
        decreases v@.len() - i,
    {
        if v[i - 1] > v[i] {
            return false;
        }
        i = i + 1;
    }
    true
}

/// Merges two sorted sequences into one sorted sequence holding exactly the
/// elements of both; on equal keys the element of `left` comes first.
fn merge(left: &Vec<u64>, right: &Vec<u64>) -> (merged: Vec<u64>)
    requires
        sorted(left@),
        sorted(right@),
    ensures
        merged@.len() == left@.len() + right@.len(),
        sorted(merged@),
        merged@.to_multiset() == left@.to_multiset().add(right@.to_multiset()),
{
    let mut out: Vec<u64> = Vec::new();
    let mut i: usize = 0;
    let mut j: usize = 0;
    while i < left.len() || j < right.len()
        invariant
            sorted(left@),
            sorted(right@),
            i <= left@.len(),
            j <= right@.len(),
            out@.len() == i + j,
            sorted(out@),
            out@.to_multiset() == left@.take(i as int).to_multiset().add(
                right@.take(j as int).to_multiset(),
            ),
            out@.len() > 0 && i < left@.len() ==> out@.last() <= left@[i as int],
            out@.len() > 0 && j < right@.len() ==> out@.last() <= right@[j as int],
        decreases left@.len() - i + right@.len() - j,
    {
        let ghost prev = out@;
        let take_left = if i == left.len() {
            false
        } else if j == right.len() {
            true
        } else {
            left[i] <= right[j]
        };
        if take_left {
            let x: u64 = left[i];
            out.push(x);
            i = i + 1;
            proof {
                assert(left@.take(i as int) =~= left@.take(i - 1).push(x));
                assert(out@.to_multiset() =~= left@.take(i as int).to_multiset().add(
                    right@.take(j as int).to_multiset(),
                ));
                assert forall|p: int, q: int| 0 <= p <= q < out@.len() implies out@[p]
                    <= out@[q] by {
                    if q < out@.len() - 1 {
                        assert(prev[p] <= prev[q]);
                    } else if p < q {
                        assert(prev[p] <= prev[prev.len() - 1]);
                    }
                }
            }
        } else {
            let x: u64 = right[j];
            out.push(x);
            j = j + 1;
            proof {
                assert(right@.take(j as int) =~= right@.take(j - 1).push(x));
                assert(out@.to_multiset() =~= left@.take(i as int).to_multiset().add(
                    right@.take(j as int).to_multiset(),
                ));
                assert forall|p: int, q: int| 0 <= p <= q < out@.len() implies out@[p]
                    <= out@[q] by {
                    if q < out@.len() - 1 {
                        assert(prev[p] <= prev[q]);
                    } else if p < q {
                        assert(prev[p] <= prev[prev.len() - 1]);
                    }
                }
            }
        }
    }
    proof {
        assert(left@.take(left@.len() as int) =~= left@);
        assert(right@.take(right@.len() as int) =~= right@);
    }
    out
}

/// The sequential fallback of a node whose depth budget is exhausted: an
/// ordinary top-down merge sort of one buffer, no forking.
fn sequential_sort(input: Vec<u64>) -> (output: Vec<u64>)
    ensures
        output@.len() == input@.len(),
        sorted(output@),
        output@.to_multiset() == input@.to_multiset(),
    decreases input@.len(),
{
    if input.len() <= 1 {
        input
    } else {
        let mut left = input;
        let ghost orig = left@;
        let mid: usize = left.len() - left.len() / 2;
        let right = left.split_off(mid);
        let left_sorted = sequential_sort(left);
        let right_sorted = sequential_sort(right);
        let merged = merge(&left_sorted, &right_sorted);
        proof {
            assert(orig =~= orig.subrange(0, mid as int) + orig.subrange(
                mid as int,
                orig.len() as int,
            ));
        }
        merged
    }
}

/// Which of the two buffers a call of `divide` sorts: at an even remaining
/// depth the first, at an odd one the second. The roles of the buffers swap
/// at every recursion level, so the parity of the depth budget decides where
/// the data that ends up sorted comes from.
spec fn divide_source(a: Seq<u64>, b: Seq<u64>, levels: int) -> Seq<u64> {
    if levels % 2 == 0 {
        a
    } else {
        b
    }
}

/// What `divide` guarantees of its result pair: the first buffer comes back
/// sorted, holding exactly the elements of the parity-selected source, and
/// both buffers keep their lengths.
spec fn divide_post(a: Seq<u64>, b: Seq<u64>, levels: int, r0: Seq<u64>, r1: Seq<u64>) -> bool {
    &&& r0.len() == a.len()
    &&& r1.len() == b.len()
    &&& sorted(r0)
    &&& r0.to_multiset() == divide_source(a, b, levels).to_multiset()
}

/// Relies on `rayon::join`: it runs the two closures to completion, possibly
/// in parallel, and returns the pair of their results. Each closure calls
/// the verified `divide` on one pair of buffer halves, so each half of the
/// returned pair satisfies `divide`'s postcondition. The recursion that
/// passes through this body terminates: every fork hands `divide` a depth
/// budget one smaller, and `divide` stops forking at zero.
#[verifier::external_body]
fn join_divide(a0: Vec<u64>, b0: Vec<u64>, a1: Vec<u64>, b1: Vec<u64>, levels: usize) -> (r: (
    (Vec<u64>, Vec<u64>),
    (Vec<u64>, Vec<u64>),
))
    requires
        a0@.len() == b0@.len(),
        a1@.len() == b1@.len(),
    ensures
        divide_post(a0@, b0@, levels as int, r.0.0@, r.0.1@),
        divide_post(a1@, b1@, levels as int, r.1.0@, r.1.1@),
{
    rayon::join(move || divide(a0, b0, levels), move || divide(a1, b1, levels))
}

/// One node of the fork-join tree over a pair of equal-length buffers. With
/// depth left it splits both buffers at the midpoint (the left half takes
/// the extra element of an odd length), forks the two sub-sorts with the
/// buffer roles swapped, and merges the halves the children sorted back into
/// the first buffer; with the budget exhausted it sorts the first buffer
/// sequentially.
fn divide(a: Vec<u64>, b: Vec<u64>, levels: usize) -> (r: (Vec<u64>, Vec<u64>))
    requires
        a@.len() == b@.len(),
    ensures
        divide_post(a@, b@, levels as int, r.0@, r.1@),
{
    if levels == 0 {
        let sorted_a = sequential_sort(a);
        (sorted_a, b)
    } else {
        let ghost a_orig = a@;
        let ghost b_orig = b@;
        let mut a_left = a;
        let mut b_left = b;
        let mid: usize = a_left.len() - a_left.len() / 2;
        let a_right = a_left.split_off(mid);
        let b_right = b_left.split_off(mid);
        let (left_pair, right_pair) = join_divide(b_left, a_left, b_right, a_right, levels - 1);
        let (left_sorted, left_rest) = left_pair;
        let (right_sorted, right_rest) = right_pair;
        let merged = merge(&left_sorted, &right_sorted);
        let mut rest = left_rest;
        let mut rest_tail = right_rest;
        rest.append(&mut rest_tail);
        proof {
            assert(a_orig =~= a_orig.subrange(0, mid as int) + a_orig.subrange(
                mid as int,
                a_orig.len() as int,
            ));
            assert(b_orig =~= b_orig.subrange(0, mid as int) + b_orig.subrange(
                mid as int,
                b_orig.len() as int,
            ));
            assert(merged@.to_multiset() == divide_source(
                a_orig,
                b_orig,
                levels as int,
            ).to_multiset());
        }
        (merged, rest)
    }
}

/// Sorts `sequence` in place at fork depth `levels`.
///
/// A depth beyond the feasible split depth of the sequence is rejected up
/// front — nothing is clamped, no work is scheduled, and the sequence is
/// left exactly as it was. On success the sequence holds the same elements,
/// sorted in ascending order; one scratch buffer of the sequence's length is
/// allocated for the duration of the call.
pub fn sort(sequence: &mut Vec<u64>, levels: usize) -> (result: Result<(), SortError>)
    ensures
        result is Ok <==> valid_levels(levels as int, old(sequence)@.len()),
        result is Ok ==> sorted(final(sequence)@) && final(sequence)@.to_multiset() == old(
            sequence,
        )@.to_multiset() && final(sequence)@.len() == old(sequence)@.len(),
        result is Err ==> final(sequence)@ == old(sequence)@ && result == Err::<
            (),
            SortError,
        >(SortError::InvalidConfiguration),
        result is Ok && sorted(old(sequence)@) ==> final(sequence)@ == old(sequence)@,
{
    let n: usize = sequence.len();
    if n <= 1 {
        return Ok(());
    }
    let feasible: usize = max_levels(n);
    if levels > feasible {
        return Err(SortError::InvalidConfiguration);
    }
    let mut data: Vec<u64> = Vec::new();
    core::mem::swap(&mut data, sequence);
    let mut scratch: Vec<u64> = Vec::new();
    while scratch.len() < n
        invariant
            scratch@.len() <= n,
        decreases n - scratch@.len(),
    {
        scratch.push(0u64);
    }
    let pair = if levels % 2 == 0 {
        divide(data, scratch, levels)
    } else {
        divide(scratch, data, levels)
    };
    let mut sorted_data = pair.0;
    core::mem::swap(sequence, &mut sorted_data);
    proof {
        if sorted(old(sequence)@) {
            lemma_sort_idempotent(old(sequence)@, sequence@);
        }
    }
    Ok(())
}

/// Any two ascending-sorted sequences holding the same elements, with the
/// same multiplicities, are equal.
proof fn lemma_sorted_permutation_unique(x: Seq<u64>, y: Seq<u64>)
    requires
        sorted(x),
        sorted(y),
        x.to_multiset() == y.to_multiset(),
    ensures
        x == y,
{
    let leq = |p: u64, q: u64| p <= q;
    assert(vstd::relations::total_ordering(leq)) by {
        assert forall|p: u64| #[trigger] leq(p, p) by {}
    }
    assert(vstd::relations::sorted_by(x, leq)) by {
        assert forall|i: int, j: int| 0 <= i < j < x.len() implies #[trigger] leq(
            x[i],
            x[j],
        ) by {}
    }
    assert(vstd::relations::sorted_by(y, leq)) by {
        assert forall|i: int, j: int| 0 <= i < j < y.len() implies #[trigger] leq(
            y[i],
            y[j],
        ) by {}
    }
    vstd::seq_lib::lemma_sorted_unique(x, y, leq);
    assert(x =~= y);
}

/// Depth invariance: the fork depth affects performance, never the result.
/// Any two outcomes that `sort` can report for the same starting sequence —
/// sorted permutations of it, whatever the depth each was produced at — are
/// the same sequence.
pub proof fn lemma_depth_invariance(s: Seq<u64>, shallow: Seq<u64>, deep: Seq<u64>)
    requires
        sorted(shallow),
        shallow.to_multiset() == s.to_multiset(),
        sorted(deep),
        deep.to_multiset() == s.to_multiset(),
    ensures
        shallow == deep,
{
    lemma_sorted_permutation_unique(shallow, deep);
}

/// Idempotence: sorting an already-sorted sequence returns it unchanged.
/// Any outcome that `sort` can report for a sorted starting sequence — a
/// sorted permutation of it — is that sequence itself.
pub proof fn lemma_sort_idempotent(s: Seq<u64>, r: Seq<u64>)
    requires
        sorted(s),
        sorted(r),
        r.to_multiset() == s.to_multiset(),
    ensures
        r == s,
{
    lemma_sorted_permutation_unique(r, s);
}

/// Relies on `rand::random`: it draws one value of the asked type from the
/// thread-local random source. Nothing can be promised of a random value.
pub assume_specification<T>[ rand::random::<T> ]() -> (r: T)
    where
        rand::distributions::Standard: rand::distributions::Distribution<T>,
;

/// Fills a fresh sequence of `n` elements with values drawn uniformly from
/// the whole `u64` domain, for building unsorted inputs.
pub fn prepare(n: usize) -> (input: Vec<u64>)
    ensures
        input@.len() == n,
{
    let mut input: Vec<u64> = Vec::new();
    while input.len() < n
        invariant
            input@.len() <= n,
        decreases n - input@.len(),
    {
        let x: u64 = rand::random();
        input.push(x);
    }
    input
}

/// The number of elements a benchmark run sorts.
pub const BENCH_INPUT_LEN: usize = 250_000_000 / 512;

/// The benchmark subject wrapping the parallel sort: it owns the fork-depth
/// setting and carries the working input between the lifecycle calls.
pub struct MergeSort {
    levels: usize,
    input: Option<Vec<u64>>,
}

impl MergeSort {
    /// The configured fork depth.
    pub closed spec fn spec_levels(self) -> usize {
        self.levels
    }

    /// The carried input, if one is prepared.
    pub closed spec fn spec_input(self) -> Option<Seq<u64>> {
        match self.input {
            Some(v) => Some(v@),
            None => None,
        }
    }

    /// A subject with the given fork depth and no input prepared yet.
    pub fn new(levels: usize) -> (subject: Self)
        ensures
            subject.spec_levels() == levels,
            subject.spec_input() is None,
    {
        let input = None;
        MergeSort { levels, input }
    }

    /// Draws a fresh random input for the next run.
    pub fn setup(&mut self)
        ensures
            final(self).spec_levels() == old(self).spec_levels(),
            final(self).spec_input() matches Some(s) && s.len() == BENCH_INPUT_LEN,
    {
        let data = prepare(BENCH_INPUT_LEN);
        self.input = Some(data);
    }

    /// Sorts the prepared input in place at the configured fork depth.
    pub fn sort(&mut self)
        requires
            old(self).spec_input() matches Some(s) && valid_levels(
                old(self).spec_levels() as int,
                s.len(),
            ),
        ensures
            final(self).spec_levels() == old(self).spec_levels(),
            old(self).spec_input() matches Some(s) && final(self).spec_input() matches Some(t)
                && sorted(t) && t.to_multiset() == s.to_multiset(),
    {
        let taken = self.input.take();
        match taken {
            Some(mut data) => {
                // The precondition pins the depth to a feasible one, so this
                // cannot report an invalid configuration.
                let _ = sort(&mut data, self.levels);
                self.input = Some(data);
            },
            None => {},
        }
    }

    /// Runs one benchmark iteration: a single sort of the prepared input.
    pub fn execute(&mut self)
        requires
            old(self).spec_input() matches Some(s) && valid_levels(
                old(self).spec_levels() as int,
                s.len(),
            ),
        ensures
            final(self).spec_levels() == old(self).spec_levels(),
            old(self).spec_input() matches Some(s) && final(self).spec_input() matches Some(t)
                && sorted(t) && t.to_multiset() == s.to_multiset(),
    {
        self.sort();
    }

    /// Releases the input of a finished run; the run must have left it
    /// sorted.
    pub fn teardown(&mut self)
        requires
            old(self).spec_input() matches Some(s) && sorted(s),
        ensures
            final(self).spec_levels() == old(self).spec_levels(),
            final(self).spec_input() is None,
    {
        self.input = None;
    }

    /// The subject's display name.
    pub fn name(&self) -> (name: &'static str)
        ensures
            name@ == "MergeSort"@,
    {
        "MergeSort"
    }
}

} // verus!
