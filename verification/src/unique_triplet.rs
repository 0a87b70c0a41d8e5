//! Triplets that sum to zero, found by sorting and then closing in on each
//! anchor from both ends of what follows it.

use vstd::prelude::*;

verus! {

/// The values are in ascending order.
pub open spec fn ascending(s: Seq<i32>) -> bool {
    forall|i: int, j: int| 0 <= i <= j < s.len() ==> s[i] <= s[j]
}

/// Every value is within the range that the search accepts.
pub open spec fn in_range(s: Seq<i32>) -> bool {
    forall|i: int| 0 <= i < s.len() ==> -100000 <= #[trigger] s[i] <= 100000
}

/// Where the lower end starts: `j` moved up for as long as it is below `k`
/// and the value after it repeats it.
pub open spec fn skip_front(s: Seq<i32>, j: int, k: int) -> int
    decreases k - j,
{
    if j < k && s[j] == s[j + 1] {
        skip_front(s, j + 1, k)
    } else {
        j
    }
}

/// Where the upper end starts: `k` moved down for as long as it is above `j`
/// and the value before it repeats it.
pub open spec fn skip_back(s: Seq<i32>, j: int, k: int) -> int
    decreases k - j,
{
    if j < k && s[k] == s[k - 1] {
        skip_back(s, j, k - 1)
    } else {
        k
    }
}

/// The triplets with first value `x` that closing in from `j` and `k` finds:
/// too large a sum moves the upper end down, too small a sum moves the lower
/// end up, and a sum that cancels `x` gives a triplet and moves both.
pub open spec fn pairs(s: Seq<i32>, x: i32, j: int, k: int) -> Seq<(i32, i32, i32)>
    decreases k - j + 1,
{
    if j >= k {
        Seq::empty()
    } else if s[j] + s[k] > -x {
        pairs(s, x, j, k - 1)
    } else if s[j] + s[k] < -x {
        pairs(s, x, j + 1, k)
    } else {
        seq![(x, s[j], s[k])] + pairs(s, x, j + 1, k - 1)
    }
}

/// The triplets whose first value is the one at `i`. There are none for a
/// positive value, nor for one that repeats the value before it.
pub open spec fn anchored(s: Seq<i32>, i: int) -> Seq<(i32, i32, i32)> {
    if s[i] <= 0 && (i == 0 || s[i] != s[i - 1]) {
        let j = skip_front(s, i + 1, s.len() - 1);
        let k = skip_back(s, j, s.len() - 1);
        pairs(s, s[i], j, k)
    } else {
        Seq::empty()
    }
}

/// The triplets of the first `n` anchors, in the order of the anchors.
pub open spec fn triplets_upto(s: Seq<i32>, n: int) -> Seq<(i32, i32, i32)>
    decreases n,
{
    if n <= 0 {
        Seq::empty()
    } else {
        triplets_upto(s, n - 1) + anchored(s, n - 1)
    }
}

/// The triplets that the search finds in the ascending values `s`: none among
/// fewer than three values.
pub open spec fn triplets(s: Seq<i32>) -> Seq<(i32, i32, i32)> {
    if s.len() < 3 {
        Seq::empty()
    } else {
        triplets_upto(s, s.len() as int)
    }
}

/// A row of three as a triple.
pub open spec fn triple(row: [i32; 3]) -> (i32, i32, i32) {
    (row[0], row[1], row[2])
}

/// Rows of three as triples.
pub open spec fn triples(rows: Seq<[i32; 3]>) -> Seq<(i32, i32, i32)> {
    rows.map_values(|row: [i32; 3]| triple(row))
}

/// `t` is made of three values of `s` at ascending positions, and they sum
/// to zero.
pub open spec fn cancels_in(s: Seq<i32>, t: (i32, i32, i32)) -> bool {
    exists|i: int, a: int, b: int|
        0 <= i < a < b < s.len() && t == (#[trigger] s[i], #[trigger] s[a], #[trigger] s[b])
            && s[i] + s[a] + s[b] == 0
}

/// `<[i32]>::sort`: afterwards the values are in ascending order, and they
/// are the values from before, each as often as before.
#[verifier::external_body]
fn sort(nums: &mut Vec<i32>)
    ensures
        ascending(final(nums)@),
        final(nums)@.to_multiset() == old(nums)@.to_multiset(),
{
    nums.sort();
}

/// Values that are a rearrangement of values in range are in range.
proof fn lemma_in_range_rearranged(before: Seq<i32>, after: Seq<i32>)
    requires
        in_range(before),
        after.to_multiset() == before.to_multiset(),
    ensures
        in_range(after),
{
    before.to_multiset_ensures();
    after.to_multiset_ensures();
    assert forall|i: int| 0 <= i < after.len() implies -100000 <= #[trigger] after[i] <= 100000 by {
        assert(before.to_multiset().count(after[i]) > 0);
    }
}

/// Past the first positive value of ascending values no anchor gives a
/// triplet.
proof fn lemma_positive_tail(s: Seq<i32>, i: int, n: int)
    requires
        ascending(s),
        0 <= i <= n <= s.len(),
        i < s.len() ==> s[i] > 0,
    ensures
        triplets_upto(s, n) == triplets_upto(s, i),
    decreases n - i,
{
    if i < n {
        lemma_positive_tail(s, i, n - 1);
        assert(s[n - 1] > 0);
    }
}

/// `t` is `x` with two values of `s` at ascending positions from `j` to `k`
/// that cancel `x`.
pub open spec fn cancels_between(s: Seq<i32>, x: i32, j: int, k: int, t: (i32, i32, i32)) -> bool {
    exists|a: int, b: int|
        j <= a < b <= k && t == (x, #[trigger] s[a], #[trigger] s[b]) && x + s[a] + s[b] == 0
}

/// Closing in from `j` and `k` finds only pairs between them that cancel
/// `x`.
proof fn lemma_pairs_cancel(s: Seq<i32>, x: i32, j: int, k: int)
    requires
        0 <= j,
        k < s.len(),
    ensures
        forall|n: int|
            0 <= n < pairs(s, x, j, k).len() ==> cancels_between(
                s,
                x,
                j,
                k,
                #[trigger] pairs(s, x, j, k)[n],
            ),
    decreases k - j + 1,
{
    if j < k {
        let all = pairs(s, x, j, k);
        if s[j] + s[k] > -x {
            lemma_pairs_cancel(s, x, j, k - 1);
            assert forall|n: int| 0 <= n < all.len() implies cancels_between(
                s,
                x,
                j,
                k,
                #[trigger] all[n],
            ) by {
                assert(all[n] == pairs(s, x, j, k - 1)[n]);
                lemma_cancels_wider(s, x, j, k - 1, j, k, all[n]);
            }
        } else if s[j] + s[k] < -x {
            lemma_pairs_cancel(s, x, j + 1, k);
            assert forall|n: int| 0 <= n < all.len() implies cancels_between(
                s,
                x,
                j,
                k,
                #[trigger] all[n],
            ) by {
                assert(all[n] == pairs(s, x, j + 1, k)[n]);
                lemma_cancels_wider(s, x, j + 1, k, j, k, all[n]);
            }
        } else {
            lemma_pairs_cancel(s, x, j + 1, k - 1);
            let rest = pairs(s, x, j + 1, k - 1);
            assert forall|n: int| 0 <= n < all.len() implies cancels_between(
                s,
                x,
                j,
                k,
                #[trigger] all[n],
            ) by {
                if n == 0 {
                    assert(all[n] == (x, s[j], s[k]));
                } else {
                    assert(all[n] == rest[n - 1]);
                    lemma_cancels_wider(s, x, j + 1, k - 1, j, k, all[n]);
                }
            }
        }
    }
}

/// What cancels between two positions cancels between any two that enclose
/// them.
proof fn lemma_cancels_wider(
    s: Seq<i32>,
    x: i32,
    j: int,
    k: int,
    lower: int,
    upper: int,
    t: (i32, i32, i32),
)
    requires
        cancels_between(s, x, j, k, t),
        lower <= j,
        k <= upper,
    ensures
        cancels_between(s, x, lower, upper, t),
{
    let (a, b) = choose|a: int, b: int|
        j <= a < b <= k && t == (x, #[trigger] s[a], #[trigger] s[b]) && x + s[a] + s[b] == 0;
    assert(lower <= a < b <= upper && t == (x, s[a], s[b]));
}

/// The lower end never starts below where it was put.
proof fn lemma_skip_front_bound(s: Seq<i32>, j: int, k: int)
    ensures
        j <= skip_front(s, j, k),
    decreases k - j,
{
    if j < k && s[j] == s[j + 1] {
        lemma_skip_front_bound(s, j + 1, k);
    }
}

/// The upper end never starts above where it was put.
proof fn lemma_skip_back_bound(s: Seq<i32>, j: int, k: int)
    ensures
        skip_back(s, j, k) <= k,
    decreases k - j,
{
    if j < k && s[k] == s[k - 1] {
        lemma_skip_back_bound(s, j, k - 1);
    }
}

/// Every triplet that the search finds is made of three values at ascending
/// positions of `s` that sum to zero.
pub proof fn lemma_triplets_cancel(s: Seq<i32>, n: int)
    requires
        0 <= n <= s.len(),
    ensures
        forall|m: int|
            0 <= m < triplets_upto(s, n).len() ==> cancels_in(s, #[trigger] triplets_upto(s, n)[m]),
    decreases n,
{
    if n > 0 {
        lemma_triplets_cancel(s, n - 1);
        let i = n - 1;
        let earlier = triplets_upto(s, n - 1);
        let here = anchored(s, i);
        if s[i] <= 0 && (i == 0 || s[i] != s[i - 1]) {
            let j = skip_front(s, i + 1, s.len() - 1);
            let k = skip_back(s, j, s.len() - 1);
            lemma_skip_front_bound(s, i + 1, s.len() - 1);
            lemma_skip_back_bound(s, j, s.len() - 1);
            lemma_pairs_cancel(s, s[i], j, k);
            assert forall|m: int| 0 <= m < here.len() implies cancels_in(s, #[trigger] here[m]) by {
                let t = pairs(s, s[i], j, k)[m];
                let (a, b) = choose|a: int, b: int|
                    j <= a < b <= k && t == (s[i], #[trigger] s[a], #[trigger] s[b]) && s[i]
                        + s[a] + s[b] == 0;
                assert(0 <= i < a < b < s.len() && t == (s[i], s[a], s[b]) && s[i] + s[a] + s[b]
                    == 0);
            }
        }
        assert forall|m: int| 0 <= m < triplets_upto(s, n).len() implies cancels_in(
            s,
            #[trigger] triplets_upto(s, n)[m],
        ) by {
            if m < earlier.len() {
                assert(triplets_upto(s, n)[m] == earlier[m]);
            } else {
                assert(triplets_upto(s, n)[m] == here[m - earlier.len()]);
            }
        }
    }
}

/// Sorts `nums`, then collects the triplets of values that sum to zero: for
/// each value up to zero that does not repeat the one before it, the pairs
/// after it that cancel it, found by closing in from both ends. Among fewer
/// than three values there is none.
pub fn find(nums: &mut Vec<i32>) -> (result: Vec<[i32; 3]>)
    requires
        old(nums)@.len() >= 3 ==> old(nums)@.len() < 3000 && in_range(old(nums)@),
    ensures
        ascending(final(nums)@),
        final(nums)@.to_multiset() == old(nums)@.to_multiset(),
        final(nums)@.len() == old(nums)@.len(),
        triples(result@) == triplets(final(nums)@),
        forall|n: int|
            0 <= n < result@.len() ==> cancels_in(final(nums)@, triple(#[trigger] result@[n])),
{
    let ghost before = nums@;
    sort(nums);
    let len: usize = nums.len();
    let mut result: Vec<[i32; 3]> = Vec::new();
    proof {
        before.to_multiset_ensures();
        nums@.to_multiset_ensures();
    }
    if len < 3 {
        return result;
    }
    proof {
        lemma_in_range_rearranged(before, nums@);
    }
    let ghost s = nums@;
    let mut i: usize = 0;
    while i < len && nums[i] <= 0
        invariant
            s == nums@,
            len == s.len(),
            3 <= len < 3000,
            in_range(s),
            ascending(s),
            0 <= i <= len,
            triples(result@) == triplets_upto(s, i as int),
        decreases len - i,
    {
        if i == 0 || nums[i] != nums[i - 1] {
            let x: i32 = nums[i];
            let mut j: usize = i + 1;
            let mut k: usize = len - 1;
            while j < k && nums[j] == nums[j + 1]
                invariant
                    s == nums@,
                    len == s.len(),
                    k == len - 1,
                    i < j <= len,
                    skip_front(s, j as int, k as int) == skip_front(s, i + 1, k as int),
                decreases k - j,
            {
                j += 1;
            }
            let ghost j0 = j;
            while j < k && nums[k] == nums[k - 1]
                invariant
                    s == nums@,
                    len == s.len(),
                    j == j0,
                    k < len,
                    skip_back(s, j as int, k as int) == skip_back(s, j as int, len - 1),
                decreases k - j,
            {
                k -= 1;
            }
            let ghost k0 = k;
            let ghost found = triples(result@);
            while j < k
                invariant
                    s == nums@,
                    len == s.len(),
                    in_range(s),
                    -100000 <= x <= 100000,
                    i < j,
                    k < len,
                    found + pairs(s, x, j0 as int, k0 as int) == triples(result@) + pairs(
                        s,
                        x,
                        j as int,
                        k as int,
                    ),
                decreases k - j + 1,
            {
                let sum: i32 = nums[j] + nums[k];
                if sum > -x {
                    k -= 1
                } else if sum < -x {
                    j += 1
                } else {
                    let ghost rows = result@;
                    result.push([x, nums[j], nums[k]]);
                    assert(triples(result@) == triples(rows) + seq![(x, s[j as int], s[k as int])]);
                    j += 1;
                    k -= 1;
                }
            }
            assert(triples(result@) == found + anchored(s, i as int));
        }
        i += 1;
    }
    proof {
        lemma_positive_tail(s, i as int, len as int);
        lemma_triplets_cancel(s, len as int);
        assert forall|n: int| 0 <= n < result@.len() implies cancels_in(
            s,
            triple(#[trigger] result@[n]),
        ) by {
            assert(triples(result@)[n] == triple(result@[n]));
        }
    }
    result
}

} // verus!
