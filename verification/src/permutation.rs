//! Rearranging a slice in place along a sorted index array.
//!
//! An index array holds one `(key, position)` pair per element. Once it is
//! sorted, the pair at `i` names the element that belongs at `i`.
//! [`apply_permutation`] moves every element there with swaps alone, and
//! records in the index array where displaced elements went, so that no
//! second buffer is needed.

use vstd::prelude::*;

verus! {

/// The positions held by `indices` are those of a slice of the same length,
/// each of them once.
pub open spec fn is_permutation<K>(indices: Seq<(K, usize)>) -> bool {
    &&& forall|i: int| 0 <= i < indices.len() ==> (#[trigger] indices[i]).1 < indices.len()
    &&& forall|i: int, j: int|
        0 <= i < j < indices.len() ==> (#[trigger] indices[i]).1 != (#[trigger] indices[j]).1
}

/// The slice `s` with the elements at `a` and `b` exchanged.
pub open spec fn swapped<T>(s: Seq<T>, a: int, b: int) -> Seq<T> {
    s.update(a, s[b]).update(b, s[a])
}

/// Calls `<[T]>::swap`, which exchanges the elements at `a` and `b` and
/// leaves the others in place. It panics on a position outside the slice,
/// which `requires` rules out.
#[verifier::external_body]
pub(crate) fn swap_elements<T>(slice: &mut [T], a: usize, b: usize)
    requires
        a < old(slice)@.len(),
        b < old(slice)@.len(),
    ensures
        final(slice)@ == swapped(old(slice)@, a as int, b as int),
{
    slice.swap(a, b);
}

/// Exchanging two elements keeps the multiset of elements.
pub proof fn lemma_swapped_multiset<T>(s: Seq<T>, a: int, b: int)
    requires
        0 <= a < s.len(),
        0 <= b < s.len(),
    ensures
        swapped(s, a, b).to_multiset() == s.to_multiset(),
{
    broadcast use vstd::seq_lib::group_to_multiset_ensures;
    broadcast use vstd::multiset::group_multiset_axioms;

    let mid = s.update(a, s[b]);
    assert(mid.to_multiset() == s.to_multiset().insert(s[b]).remove(s[a]));
    assert(mid[b] == s[b]);
    assert(swapped(s, a, b).to_multiset() == mid.to_multiset().insert(s[a]).remove(s[b]));
    assert(s.to_multiset().count(s[a]) > 0) by {
        assert(s.contains(s[a]));
    }
    assert(s.to_multiset().count(s[b]) > 0) by {
        assert(s.contains(s[b]));
    }
    assert(swapped(s, a, b).to_multiset() =~= s.to_multiset());
}

/// What the index array records before position `i`: an element that was
/// moved away from `pos` and is not yet at its place lies where the pair at
/// `pos` points, which is further on.
pub open spec fn moves_recorded<K>(
    indices: Seq<(K, usize)>,
    i: int,
    origin: Seq<int>,
    placed: Seq<bool>,
) -> bool {
    forall|pos: int|
        0 <= pos < i && !placed[#[trigger] origin[pos]] ==> {
            &&& pos < indices[pos].1 < indices.len()
            &&& origin[indices[pos].1 as int] == origin[pos]
        }
}

/// Rearranges `slice` so that position `i` holds the element that was at the
/// position named by the `i`-th pair of `indices`.
///
/// The keys of `indices` stay as they are. Its positions are overwritten
/// while the elements move and mean nothing afterwards.
pub fn apply_permutation<T, K>(slice: &mut [T], indices: &mut Vec<(K, usize)>)
    requires
        old(indices)@.len() == old(slice)@.len(),
        is_permutation(old(indices)@),
    ensures
        final(slice)@.len() == old(slice)@.len(),
        forall|i: int|
            0 <= i < old(slice)@.len() ==> #[trigger] final(slice)@[i] == old(slice)@[old(indices)@[i].1 as int],
        final(slice)@.to_multiset() == old(slice)@.to_multiset(),
        final(indices)@.len() == old(indices)@.len(),
        forall|i: int|
            0 <= i < old(indices)@.len() ==> (#[trigger] final(indices)@[i]).0 == old(indices)@[i].0,
{
    let n = slice.len();
    let ghost before = slice@;
    let ghost order = indices@;
    // origin[pos]: where the element now at `pos` lay at first; frozen once
    // the element at `pos` is final.
    let ghost mut origin: Seq<int> = Seq::new(n as nat, |pos: int| pos);
    let ghost mut placed: Seq<bool> = Seq::new(n as nat, |x: int| false);
    let mut i: usize = 0;
    while i < n
        invariant
            n == before.len(),
            slice@.len() == n,
            indices@.len() == n,
            order.len() == n,
            origin.len() == n,
            placed.len() == n,
            is_permutation(order),
            i <= n,
            slice@.to_multiset() == before.to_multiset(),
            forall|pos: int| 0 <= pos < n ==> (#[trigger] indices@[pos]).0 == order[pos].0,
            forall|pos: int| i <= pos < n ==> (#[trigger] indices@[pos]).1 == order[pos].1,
            forall|pos: int| 0 <= pos < i ==> #[trigger] slice@[pos] == before[order[pos].1 as int],
            forall|pos: int| 0 <= pos < n ==> 0 <= #[trigger] origin[pos] < n,
            forall|pos: int| i <= pos < n ==> #[trigger] slice@[pos] == before[origin[pos]],
            forall|pos: int| i <= pos < n ==> !placed[#[trigger] origin[pos]],
            forall|a: int, b: int|
                i <= a < b < n ==> #[trigger] origin[a] != #[trigger] origin[b],
            forall|pos: int| 0 <= pos < i ==> placed[(#[trigger] order[pos]).1 as int],
            forall|pos: int| i <= pos < n ==> !placed[(#[trigger] order[pos]).1 as int],
            forall|x: int| 0 <= x < n && !#[trigger] placed[x] ==> origin[x] == x,
            moves_recorded(indices@, i as int, origin, placed),
        decreases n - i,
    {
        let mut index = indices[i].1;
        let ghost wanted = index as int;
        assert(indices@[i as int].1 == order[i as int].1);
        assert(!placed[order[i as int].1 as int]);
        while index < i
            invariant
                i < n,
                index < n,
                indices@.len() == n,
                origin.len() == n,
                placed.len() == n,
                0 <= wanted < n,
                !placed[wanted],
                origin[index as int] == wanted,
                moves_recorded(indices@, i as int, origin, placed),
            decreases n - index,
        {
            index = indices[index].1;
        }
        let ghost indices_before = indices@;
        let ghost origin_before = origin;
        let ghost placed_before = placed;
        let ghost slice_before = slice@;
        indices[i].1 = index;
        swap_elements(slice, i, index);
        proof {
            lemma_swapped_multiset(slice_before, i as int, index as int);
            origin = origin.update(index as int, origin[i as int]);
            placed = placed.update(wanted, true);
            assert forall|pos: int| i + 1 <= pos < n implies !placed[#[trigger] origin[pos]] by {
                if pos == index {
                    assert(origin_before[i as int] != origin_before[index as int]);
                } else {
                    assert(origin_before[pos] != origin_before[index as int]);
                }
            }
            assert forall|a: int, b: int| i + 1 <= a < b < n implies #[trigger] origin[a]
                != #[trigger] origin[b] by {
                if a == index {
                    assert(origin_before[i as int] != origin_before[b]);
                } else if b == index {
                    assert(origin_before[i as int] != origin_before[a]);
                }
            }
            assert forall|pos: int| i + 1 <= pos < n implies !placed[(#[trigger] order[pos]).1 as int] by {
                assert(order[i as int].1 != order[pos].1);
            }
            assert forall|x: int| 0 <= x < n && !#[trigger] placed[x] implies origin[x] == x by {
                assert(origin_before[x] == x);
                if x == index {
                    assert(origin_before[index as int] == wanted);
                }
            }
            assert forall|pos: int|
                0 <= pos < i + 1 && !placed[#[trigger] origin[pos]] implies {
                &&& pos < indices@[pos].1 < indices@.len()
                &&& origin[indices@[pos].1 as int] == origin[pos]
            } by {
                if pos == i {
                    assert(origin[pos] == origin_before[i as int]);
                    if index == i {
                        assert(origin_before[i as int] == wanted);
                    }
                } else {
                    assert(indices@[pos] == indices_before[pos]);
                    assert(origin[pos] == origin_before[pos]);
                    assert(!placed_before[origin_before[pos]]);
                    let next = indices_before[pos].1 as int;
                    assert(origin_before[next] == origin_before[pos]);
                    if next == index {
                        assert(origin_before[pos] == wanted);
                    }
                }
            }
        }
        i += 1;
    }
}

} // verus!
