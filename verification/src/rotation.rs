//! The mathematics of round-robin rotation.
//!
//! A rotation step removes up to `count` entries from the front of a sequence
//! and reinserts the same entries at the back, in the same relative order.
//! This module defines that step, its iteration, and the concatenation of the
//! drained batches, and proves the fairness facts the delivery queue is used
//! for.

use vstd::arithmetic::div_mod::{
    lemma_fundamental_div_mod, lemma_fundamental_div_mod_converse_mod,
    lemma_mod_division_less_than_divisor, lemma_mod_sub_multiples_vanish, lemma_small_mod,
};
use vstd::prelude::*;

verus! {

/// How many entries one rotation by `count` actually moves: `count`, capped
/// at the length of the sequence.
pub open spec fn rotation_width(len: nat, count: nat) -> nat {
    if count <= len {
        count
    } else {
        len
    }
}

/// The batch a rotation by `count` drains from the front of `s`.
pub open spec fn selected_front<T>(s: Seq<T>, count: nat) -> Seq<T> {
    s.take(rotation_width(s.len(), count) as int)
}

/// The sequence after one rotation by `count`: the drained front entries
/// reappear at the back, in the same relative order.
pub open spec fn rotated<T>(s: Seq<T>, count: nat) -> Seq<T> {
    let width = rotation_width(s.len(), count) as int;
    s.skip(width) + s.take(width)
}

/// The sequence after `calls` successive rotations by `count`.
pub open spec fn iter_rotated<T>(s: Seq<T>, count: nat, calls: nat) -> Seq<T>
    decreases calls,
{
    if calls == 0 {
        s
    } else {
        rotated(iter_rotated(s, count, (calls - 1) as nat), count)
    }
}

/// Everything drained over `calls` successive rotations by `count`, in the
/// order it came out.
pub open spec fn drained<T>(s: Seq<T>, count: nat, calls: nat) -> Seq<T>
    decreases calls,
{
    if calls == 0 {
        Seq::empty()
    } else {
        drained(s, count, (calls - 1) as nat) + selected_front(
            iter_rotated(s, count, (calls - 1) as nat),
            count,
        )
    }
}

/// One rotation never changes the length of the sequence, whatever the count.
pub broadcast proof fn lemma_rotated_len<T>(s: Seq<T>, count: nat)
    ensures
        #[trigger] rotated(s, count).len() == s.len(),
{
}

/// A rotation only rearranges: the sequence after it holds exactly the
/// entries it held before, each the same number of times, and a sequence of
/// pairwise distinct entries stays pairwise distinct.
pub proof fn lemma_rotated_permutes<T>(s: Seq<T>, count: nat)
    ensures
        rotated(s, count).to_multiset() == s.to_multiset(),
        forall|x: T| #[trigger] rotated(s, count).contains(x) <==> s.contains(x),
        s.no_duplicates() ==> rotated(s, count).no_duplicates(),
{
    let w = rotation_width(s.len(), count) as int;
    let r = rotated(s, count);
    assert(s.take(w) + s.skip(w) =~= s);
    vstd::seq_lib::lemma_seq_union_to_multiset_commutative(s.skip(w), s.take(w));
    assert(r.to_multiset() =~= s.to_multiset());
    s.to_multiset_ensures();
    r.to_multiset_ensures();
    assert forall|x: T| #[trigger] r.contains(x) <==> s.contains(x) by {
        assert(r.contains(x) <==> r.to_multiset().count(x) > 0);
        assert(s.contains(x) <==> s.to_multiset().count(x) > 0);
    }
    if s.no_duplicates() {
        s.lemma_multiset_has_no_duplicates();
        assert forall|x: T| r.to_multiset().contains(x) implies r.to_multiset().count(x)
            == 1 by {
            assert(s.to_multiset().contains(x));
        }
        r.lemma_multiset_has_no_duplicates_conv();
    }
}

/// Any number of rotations leaves the length of the sequence unchanged,
/// whatever the count.
pub proof fn lemma_iter_rotated_len<T>(s: Seq<T>, count: nat, calls: nat)
    ensures
        iter_rotated(s, count, calls).len() == s.len(),
    decreases calls,
{
    if calls > 0 {
        lemma_iter_rotated_len(s, count, (calls - 1) as nat);
    }
}

/// The sequence after one rotation per entry of `counts`, each rotation by
/// that entry's count.
pub open spec fn rotated_by_each<T>(s: Seq<T>, counts: Seq<nat>) -> Seq<T>
    decreases counts.len(),
{
    if counts.len() == 0 {
        s
    } else {
        rotated_by_each(rotated(s, counts[0]), counts.skip(1))
    }
}

/// Queue length invariance: any sequence of rotations, each by whatever
/// count, leaves the length of the sequence unchanged.
pub proof fn lemma_rotated_by_each_len<T>(s: Seq<T>, counts: Seq<nat>)
    ensures
        rotated_by_each(s, counts).len() == s.len(),
    decreases counts.len(),
{
    if counts.len() > 0 {
        lemma_rotated_by_each_len(rotated(s, counts[0]), counts.skip(1));
    }
}

/// Where each entry stands after `calls` rotations by `count`: position `i`
/// then holds the entry that started `calls * count` places further on,
/// wrapping around.
pub proof fn lemma_iter_rotated_index<T>(s: Seq<T>, count: nat, calls: nat)
    requires
        0 < count <= s.len(),
    ensures
        iter_rotated(s, count, calls).len() == s.len(),
        forall|i: int|
            0 <= i < s.len() ==> #[trigger] iter_rotated(s, count, calls)[i] == s[(i + calls
                * count) % (s.len() as int)],
    decreases calls,
{
    let n = s.len() as int;
    let c = count as int;
    let cur = iter_rotated(s, count, calls);
    if calls == 0 {
        assert forall|i: int| 0 <= i < n implies #[trigger] cur[i] == s[(i + calls * count)
            % n] by {
            lemma_small_mod(i as nat, s.len());
        }
    } else {
        let k = (calls - 1) as nat;
        lemma_iter_rotated_index(s, count, k);
        let prev = iter_rotated(s, count, k);
        assert(cur == rotated(prev, count));
        assert(rotation_width(prev.len(), count) == count);
        assert forall|i: int| 0 <= i < n implies #[trigger] cur[i] == s[(i + calls * count)
            % n] by {
            if i < n - c {
                assert(cur[i] == prev[i + c]);
                assert(prev[i + c] == s[((i + c) + k * count) % n]);
                assert((i + c) + k * count == i + calls * count) by (nonlinear_arith)
                    requires
                        k == calls - 1,
                        c == count,
                ;
            } else {
                assert(cur[i] == prev.take(c)[i - (n - c)]);
                assert(cur[i] == prev[i - (n - c)]);
                assert(prev[i - (n - c)] == s[((i - (n - c)) + k * count) % n]);
                assert((i - (n - c)) + k * count == -n + (i + calls * count)) by (nonlinear_arith)
                    requires
                        k == calls - 1,
                        c == count,
                ;
                lemma_mod_sub_multiples_vanish(i + calls * count, n);
            }
        }
    }
}

/// Concatenating the batches of `calls` rotations by `count` walks the
/// original sequence cyclically: the entry at position `i` of the combined
/// output is the entry at `i` modulo the queue length.
pub proof fn lemma_drained_index<T>(s: Seq<T>, count: nat, calls: nat)
    requires
        0 < count <= s.len(),
    ensures
        drained(s, count, calls).len() == calls * count,
        forall|i: int|
            0 <= i < calls * count ==> #[trigger] drained(s, count, calls)[i] == s[i % (
            s.len() as int)],
    decreases calls,
{
    let n = s.len() as int;
    let c = count as int;
    let cur = drained(s, count, calls);
    if calls > 0 {
        let k = (calls - 1) as nat;
        lemma_drained_index(s, count, k);
        lemma_iter_rotated_index(s, count, k);
        let before = drained(s, count, k);
        let prev = iter_rotated(s, count, k);
        assert(cur == before + selected_front(prev, count));
        assert(rotation_width(prev.len(), count) == count);
        assert(selected_front(prev, count).len() == c);
        assert(k * count + count == calls * count) by (nonlinear_arith)
            requires
                k == calls - 1,
        ;
        assert forall|i: int| 0 <= i < calls * count implies #[trigger] cur[i] == s[i % n] by {
            if i < k * count {
                assert(cur[i] == before[i]);
            } else {
                let j = i - k * count;
                assert(0 <= j < c);
                assert(cur[i] == selected_front(prev, count)[j]);
                assert(selected_front(prev, count)[j] == prev[j]);
                assert(prev[j] == s[(j + k * count) % n]);
                assert(j + k * count == i);
            }
        }
    }
}

/// Rotation fairness, first half: with batches of `count` out of a queue of
/// `N` distinct keys, every key is drained within any run of calls that
/// together drain at least `N` entries — the least such run being
/// `N` divided by `count`, rounded up. Indeed the first `N` drained entries
/// are exactly the queue itself, in order.
pub proof fn lemma_rotation_coverage<T>(s: Seq<T>, count: nat, calls: nat)
    requires
        0 < count <= s.len(),
        s.len() <= calls * count,
    ensures
        drained(s, count, calls).len() == calls * count,
        forall|j: int| 0 <= j < s.len() ==> #[trigger] drained(s, count, calls)[j] == s[j],
        forall|x: T| s.contains(x) ==> #[trigger] drained(s, count, calls).contains(x),
{
    let d = drained(s, count, calls);
    lemma_drained_index(s, count, calls);
    assert forall|j: int| 0 <= j < s.len() implies #[trigger] d[j] == s[j] by {
        lemma_small_mod(j as nat, s.len());
    }
    assert forall|x: T| s.contains(x) implies #[trigger] d.contains(x) by {
        let j = choose|j: int| 0 <= j < s.len() && s[j] == x;
        assert(d[j] == x);
    }
}

/// Rotation fairness, second half: no key is drained twice before every
/// other key has been drained once. Whenever the same key comes out at two
/// positions of the combined output, the positions are at least a full
/// queue length apart, and every other key comes out strictly between them.
pub proof fn lemma_rotation_no_early_repeat<T>(
    s: Seq<T>,
    count: nat,
    calls: nat,
    first: int,
    second: int,
)
    requires
        0 < count <= s.len(),
        s.no_duplicates(),
        0 <= first < second < drained(s, count, calls).len(),
        drained(s, count, calls)[first] == drained(s, count, calls)[second],
    ensures
        second - first >= s.len(),
        forall|x: T|
            s.contains(x) && x != drained(s, count, calls)[first] ==> exists|m: int|
                first < m < second && drained(s, count, calls)[m] == x,
{
    let n = s.len() as int;
    let d = drained(s, count, calls);
    lemma_drained_index(s, count, calls);
    lemma_mod_division_less_than_divisor(first, n);
    lemma_mod_division_less_than_divisor(second, n);
    let r = first % n;
    assert(d[first] == s[r]);
    assert(d[second] == s[second % n]);
    assert(second % n == r);
    lemma_fundamental_div_mod(first, n);
    lemma_fundamental_div_mod(second, n);
    let q1 = first / n;
    let q2 = second / n;
    assert(second - first == n * (q2 - q1)) by (nonlinear_arith)
        requires
            first == n * q1 + r,
            second == n * q2 + r,
    ;
    assert(second - first >= n) by (nonlinear_arith)
        requires
            second - first == n * (q2 - q1),
            second - first > 0,
            n > 0,
    ;
    assert forall|x: T| s.contains(x) && x != d[first] implies exists|m: int|
        first < m < second && d[m] == x by {
        let t = choose|t: int| 0 <= t < n && s[t] == x;
        assert(t != r);
        let offset = if t > r {
            t - r
        } else {
            t - r + n
        };
        assert(0 < offset < n);
        let m = first + offset;
        assert(first < m < second);
        if t > r {
            assert(m == q1 * n + t) by (nonlinear_arith)
                requires
                    first == n * q1 + r,
                    m == first + t - r,
            ;
            lemma_fundamental_div_mod_converse_mod(m, n, q1, t);
        } else {
            assert(m == (q1 + 1) * n + t) by (nonlinear_arith)
                requires
                    first == n * q1 + r,
                    m == first + t - r + n,
            ;
            lemma_fundamental_div_mod_converse_mod(m, n, q1 + 1, t);
        }
        assert(d[m] == s[t]);
    }
}

} // verus!
