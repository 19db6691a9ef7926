//! Shuffling a dataset: a Fisher-Yates pass whose picks come from a random
//! source, and the same pass on picks that the caller supplies.

use vstd::prelude::*;

verus! {

/// `<[T]>::swap` exchanges the items at two positions, both of which must be
/// inside the slice, and leaves every other item where it was.
pub assume_specification<T>[ <[T]>::swap ](slice: &mut [T], a: usize, b: usize)
    requires
        a < old(slice)@.len(),
        b < old(slice)@.len(),
    ensures
        final(slice)@ == old(slice)@.update(a as int, old(slice)@[b as int]).update(
            b as int,
            old(slice)@[a as int],
        ),
;

/// Calls `rand::Rng::gen_range` on the thread's generator with the range
/// `0..bound`. The range must not be empty; the number drawn lies inside it.
/// Nothing more is claimed of it: two calls may differ.
#[verifier::external_body]
fn random_below(bound: usize) -> (r: usize)
    requires
        bound > 0,
    ensures
        r < bound,
{
    rand::Rng::gen_range(&mut rand::thread_rng(), 0..bound)
}

/// The sequence `s` with the items at `i` and `j` exchanged.
pub open spec fn swapped<Item>(s: Seq<Item>, i: int, j: int) -> Seq<Item>
    recommends
        0 <= i < s.len(),
        0 <= j < s.len(),
{
    s.update(i, s[j]).update(j, s[i])
}

/// Exchanging two items keeps the multiset of items.
pub proof fn lemma_swapped_keeps_items<Item>(s: Seq<Item>, i: int, j: int)
    requires
        0 <= i < s.len(),
        0 <= j < s.len(),
    ensures
        swapped(s, i, j).len() == s.len(),
        swapped(s, i, j).to_multiset() == s.to_multiset(),
{
    broadcast use vstd::seq_lib::to_multiset_update;
    let a = s.update(i, s[j]);
    assert(a.to_multiset() == s.to_multiset().insert(s[j]).remove(s[i]));
    assert(a[j] == s[j]);
    assert(swapped(s, i, j).to_multiset() == a.to_multiset().insert(s[i]).remove(s[j]));
    assert(swapped(s, i, j).to_multiset() =~= s.to_multiset()) by {
        s.to_multiset_ensures();
        assert(s.contains(s[i]));
        assert(s.contains(s[j]));
    }
}

fn swap_items<Item>(items: &mut Vec<Item>, i: usize, j: usize)
    requires
        i < old(items)@.len(),
        j < old(items)@.len(),
    ensures
        final(items)@ == swapped(old(items)@, i as int, j as int),
{
    items.as_mut_slice().swap(i, j);
}

/// Whether `picks` names, for each of `len` positions, a position that is not
/// after it.
pub open spec fn valid_picks(len: nat, picks: Seq<usize>) -> bool {
    &&& picks.len() == len
    &&& forall|i: int| 0 <= i < picks.len() ==> #[trigger] picks[i] <= i
}

/// The sequence `s` after the positions `from`, `from + 1`, .. up to the last
/// have each been exchanged with their pick, the last position first.
pub open spec fn permuted_from<Item>(s: Seq<Item>, picks: Seq<usize>, from: int) -> Seq<Item>
    decreases s.len() - from,
{
    if 0 <= from < s.len() {
        swapped(permuted_from(s, picks, from + 1), from, picks[from] as int)
    } else {
        s
    }
}

/// One Fisher-Yates pass over `s`: every position but the first, from the last
/// one down, is exchanged with its pick.
pub open spec fn permuted<Item>(s: Seq<Item>, picks: Seq<usize>) -> Seq<Item> {
    permuted_from(s, picks, 1)
}

/// A partial pass keeps the length and the multiset of items.
pub proof fn lemma_permuted_from_keeps_items<Item>(s: Seq<Item>, picks: Seq<usize>, from: int)
    requires
        valid_picks(s.len(), picks),
        0 <= from,
    ensures
        permuted_from(s, picks, from).len() == s.len(),
        permuted_from(s, picks, from).to_multiset() == s.to_multiset(),
    decreases s.len() - from,
{
    if from < s.len() {
        lemma_permuted_from_keeps_items(s, picks, from + 1);
        lemma_swapped_keeps_items(permuted_from(s, picks, from + 1), from, picks[from] as int);
    }
}

/// A Fisher-Yates pass is a permutation, whatever the picks: it keeps the
/// multiset of items, and so their number.
pub proof fn lemma_permuted_keeps_items<Item>(s: Seq<Item>, picks: Seq<usize>)
    requires
        valid_picks(s.len(), picks),
    ensures
        permuted(s, picks).len() == s.len(),
        permuted(s, picks).to_multiset() == s.to_multiset(),
{
    lemma_permuted_from_keeps_items(s, picks, 1);
}

/// Whether `picks` is valid for `len` items.
fn check_picks(len: usize, picks: &[usize]) -> (ok: bool)
    ensures
        ok == valid_picks(len as nat, picks@),
{
    if picks.len() != len {
        return false;
    }
    let mut i: usize = 0;
    while i < picks.len()
        invariant
            i <= picks.len(),
            forall|k: int| 0 <= k < i ==> #[trigger] picks@[k] <= k,
        decreases picks.len() - i,
    {
        if picks[i] > i {
            return false;
        }
        i += 1;
    }
    true
}

/// Rearranges `items` by one Fisher-Yates pass with the given picks: going
/// from the last position down to the second, the item at position `i` is
/// exchanged with the one at `picks[i]`.
///
/// The picks are valid when there is one for each item and none names a later
/// position than its own. With invalid picks nothing is moved and `false`
/// comes back.
pub fn permute<Item>(items: &mut Vec<Item>, picks: &[usize]) -> (done: bool)
    ensures
        done == valid_picks(old(items)@.len(), picks@),
        done ==> final(items)@ == permuted(old(items)@, picks@),
        !done ==> final(items)@ == old(items)@,
{
    if !check_picks(items.len(), picks) {
        return false;
    }
    let n: usize = items.len();
    if n < 2 {
        return true;
    }
    let mut i: usize = n;
    while i > 1
        invariant
            n == old(items)@.len(),
            items@.len() == n,
            1 <= i <= n,
            valid_picks(n as nat, picks@),
            items@ == permuted_from(old(items)@, picks@, i as int),
        decreases i,
    {
        i -= 1;
        swap_items(items, i, picks[i]);
    }
    true
}

/// Shuffles `items` in place: a Fisher-Yates pass whose picks are drawn from
/// the thread's random generator.
///
/// Whatever is drawn, the outcome is a permutation of the input: the same
/// items, each as often as before.
pub fn shuffle_dataset<Item>(items: &mut Vec<Item>)
    ensures
        final(items)@.len() == old(items)@.len(),
        final(items)@.to_multiset() == old(items)@.to_multiset(),
        exists|picks: Seq<usize>|
            valid_picks(old(items)@.len(), picks) && final(items)@ == permuted(
                old(items)@,
                picks,
            ),
{
    let n: usize = items.len();
    let mut picks: Vec<usize> = Vec::new();
    let mut i: usize = 0;
    while i < n
        invariant
            i <= n,
            picks@.len() == i,
            forall|k: int| 0 <= k < i ==> #[trigger] picks@[k] <= k,
        decreases n - i,
    {
        let pick: usize = random_below(i + 1);
        picks.push(pick);
        i += 1;
    }
    let done: bool = permute(items, picks.as_slice());
    proof {
        assert(done);
        lemma_permuted_keeps_items(old(items)@, picks@);
    }
}

} // verus!
