use vstd::prelude::*;
use vstd::seq_lib::to_multiset_build;
use vstd::seq_lib::to_multiset_contains;
use vstd::seq_lib::to_multiset_insert;

verus! {

/// Where `x` enters a sequence that is kept in ascending order of `key`: directly behind the
/// last element whose key is not greater than the key of `x`.
pub open spec fn insertion_point<A>(sorted: Seq<A>, key: spec_fn(A) -> int, x: A) -> int
    decreases sorted.len(),
{
    if sorted.len() == 0 || key(sorted.last()) <= key(x) {
        sorted.len() as int
    } else {
        insertion_point(sorted.drop_last(), key, x)
    }
}

/// The stable sort of `s` by `key`.
///
/// The elements are taken in the order in which `s` holds them, and each one is placed behind
/// everything already placed whose key is not greater. Elements with equal keys therefore keep
/// the order they had in `s`.
pub open spec fn stable_sort_by<A>(s: Seq<A>, key: spec_fn(A) -> int) -> Seq<A>
    decreases s.len(),
{
    if s.len() == 0 {
        Seq::empty()
    } else {
        let placed = stable_sort_by(s.drop_last(), key);
        placed.insert(insertion_point(placed, key, s.last()), s.last())
    }
}

/// The keys never go down from one element of `s` to the next.
pub open spec fn ascending<A>(s: Seq<A>, key: spec_fn(A) -> int) -> bool {
    forall|i: int, j: int| #![trigger s[i], s[j]] 0 <= i < j < s.len() ==> key(s[i]) <= key(s[j])
}

/// `a` stands before `b` once `s` has been sorted stably by `key`: its key is smaller, or the
/// keys are equal and `a` stood before `b` in `s`.
pub open spec fn sorts_before<A>(s: Seq<A>, key: spec_fn(A) -> int, a: A, b: A) -> bool {
    key(a) < key(b) || (key(a) == key(b) && s.index_of(a) < s.index_of(b))
}

/// The first three elements of `s`, or all of `s` where it holds fewer.
pub open spec fn first_three<A>(s: Seq<A>) -> Seq<A> {
    if s.len() < 3 {
        s
    } else {
        s.take(3)
    }
}

/// The key that position `p` has in the table `keys`.
pub open spec fn key_at(keys: Seq<u64>) -> spec_fn(usize) -> int {
    |p: usize| keys[p as int] as int
}

/// The positions of a table of `n` rows: `0` to `n - 1`, in this order.
pub open spec fn positions(n: nat) -> Seq<usize> {
    Seq::new(n, |i: int| i as usize)
}

/// The score of the entry at position `p` of `entries`, each entry being a score, a distance
/// and a time.
pub open spec fn score_at(entries: Seq<(u64, u64, u64)>) -> spec_fn(usize) -> int {
    |p: usize| entries[p as int].0 as int
}

/// The time of the entry at position `p` of `entries`.
pub open spec fn time_at(entries: Seq<(u64, u64, u64)>) -> spec_fn(usize) -> int {
    |p: usize| entries[p as int].2 as int
}

/// The positions of `entries` in ranking order: sorted stably by score, and the outcome sorted
/// stably by time.
pub open spec fn ranked_positions(entries: Seq<(u64, u64, u64)>) -> Seq<usize> {
    stable_sort_by(
        stable_sort_by(positions(entries.len()), score_at(entries)),
        time_at(entries),
    )
}

proof fn lemma_insertion_point<A>(sorted: Seq<A>, key: spec_fn(A) -> int, x: A)
    ensures
        0 <= insertion_point(sorted, key, x) <= sorted.len(),
        forall|j: int|
            insertion_point(sorted, key, x) <= j < sorted.len() ==> key(#[trigger] sorted[j]) > key(x),
        insertion_point(sorted, key, x) > 0 ==> key(sorted[insertion_point(sorted, key, x) - 1])
            <= key(x),
    decreases sorted.len(),
{
    if !(sorted.len() == 0 || key(sorted.last()) <= key(x)) {
        let front = sorted.drop_last();
        lemma_insertion_point(front, key, x);
        assert forall|j: int| insertion_point(sorted, key, x) <= j < sorted.len() implies key(
            #[trigger] sorted[j],
        ) > key(x) by {
            if j < front.len() {
                assert(sorted[j] == front[j]);
            }
        }
    }
}

proof fn lemma_index_of_unique<A>(s: Seq<A>, i: int)
    requires
        s.no_duplicates(),
        0 <= i < s.len(),
    ensures
        s.index_of(s[i]) == i,
{
    assert(s.contains(s[i]));
}

/// A stable sort only rearranges: the result holds every element as often as the input does.
pub proof fn lemma_stable_sort_permutes<A>(s: Seq<A>, key: spec_fn(A) -> int)
    ensures
        stable_sort_by(s, key).len() == s.len(),
        stable_sort_by(s, key).to_multiset() == s.to_multiset(),
        forall|x: A| stable_sort_by(s, key).contains(x) <==> s.contains(x),
        s.no_duplicates() ==> stable_sort_by(s, key).no_duplicates(),
    decreases s.len(),
{
    let out = stable_sort_by(s, key);
    if s.len() > 0 {
        let front = s.drop_last();
        let placed = stable_sort_by(front, key);
        let p: int = insertion_point(placed, key, s.last());
        lemma_stable_sort_permutes(front, key);
        lemma_insertion_point(placed, key, s.last());
        to_multiset_insert(placed, p, s.last());
        to_multiset_build(front, s.last());
        assert(s =~= front.push(s.last()));
        assert(out.to_multiset() == front.to_multiset().insert(s.last()));
    } else {
        assert(s =~= Seq::empty());
    }
    assert forall|x: A| out.contains(x) <==> s.contains(x) by {
        to_multiset_contains(out, x);
        to_multiset_contains(s, x);
    }
    if s.no_duplicates() {
        s.lemma_multiset_has_no_duplicates();
        out.lemma_multiset_has_no_duplicates_conv();
    }
}

/// What holds of every element of `s` holds of every element of its sort.
pub proof fn lemma_stable_sort_keeps<A>(
    s: Seq<A>,
    key: spec_fn(A) -> int,
    holds: spec_fn(A) -> bool,
)
    requires
        forall|i: int| 0 <= i < s.len() ==> holds(#[trigger] s[i]),
    ensures
        forall|i: int| 0 <= i < s.len() ==> holds(#[trigger] stable_sort_by(s, key)[i]),
{
    let out = stable_sort_by(s, key);
    lemma_stable_sort_permutes(s, key);
    assert forall|i: int| 0 <= i < s.len() implies holds(#[trigger] out[i]) by {
        assert(out.contains(out[i]));
        assert(s.contains(out[i]));
        let at: int = s.index_of(out[i]);
        assert(s[at] == out[i]);
    }
}

/// A stable sort puts the keys in ascending order.
pub proof fn lemma_stable_sort_ascending<A>(s: Seq<A>, key: spec_fn(A) -> int)
    ensures
        ascending(stable_sort_by(s, key), key),
    decreases s.len(),
{
    if s.len() > 0 {
        let placed = stable_sort_by(s.drop_last(), key);
        let x = s.last();
        let p: int = insertion_point(placed, key, x);
        let out = placed.insert(p, x);
        lemma_stable_sort_ascending(s.drop_last(), key);
        lemma_insertion_point(placed, key, x);
        assert forall|i: int, j: int| 0 <= i < j < out.len() implies key(out[i]) <= key(out[j]) by {
            if j == p {
                assert(out[i] == placed[i]);
                assert(key(placed[i]) <= key(placed[p - 1]));
            } else if i == p {
                assert(out[j] == placed[j - 1]);
            } else {
                let i0: int = if i < p { i } else { i - 1 };
                let j0: int = if j < p { j } else { j - 1 };
                assert(out[i] == placed[i0]);
                assert(out[j] == placed[j0]);
            }
        }
    }
}

/// A stable sort of distinct elements is in the order that [`sorts_before`] describes: by key,
/// and among equal keys by the place held in the input.
pub proof fn lemma_stable_sort_order<A>(s: Seq<A>, key: spec_fn(A) -> int)
    requires
        s.no_duplicates(),
    ensures
        forall|i: int, j: int|
            #![trigger stable_sort_by(s, key)[i], stable_sort_by(s, key)[j]]
            0 <= i < j < s.len() ==> sorts_before(
                s,
                key,
                stable_sort_by(s, key)[i],
                stable_sort_by(s, key)[j],
            ),
    decreases s.len(),
{
    if s.len() > 0 {
        let front = s.drop_last();
        let placed = stable_sort_by(front, key);
        let x = s.last();
        let p: int = insertion_point(placed, key, x);
        let out = placed.insert(p, x);
        lemma_stable_sort_order(front, key);
        lemma_stable_sort_permutes(front, key);
        lemma_stable_sort_ascending(front, key);
        lemma_insertion_point(placed, key, x);
        lemma_index_of_unique(s, s.len() - 1);
        assert forall|k: int| 0 <= k < placed.len() implies s.index_of(placed[k]) == front.index_of(
            placed[k],
        ) && front.index_of(placed[k]) < s.len() - 1 by {
            assert(placed.contains(placed[k]));
            assert(front.contains(placed[k]));
            let m: int = front.index_of(placed[k]);
            assert(s[m] == placed[k]);
            lemma_index_of_unique(s, m);
        }
        assert forall|i: int, j: int| 0 <= i < j < s.len() implies sorts_before(
            s,
            key,
            out[i],
            out[j],
        ) by {
            if j == p {
                assert(out[i] == placed[i]);
                assert(key(placed[i]) <= key(placed[p - 1]));
            } else if i == p {
                assert(out[j] == placed[j - 1]);
            } else {
                let i0: int = if i < p { i } else { i - 1 };
                let j0: int = if j < p { j } else { j - 1 };
                assert(out[i] == placed[i0]);
                assert(out[j] == placed[j0]);
                assert(sorts_before(front, key, placed[i0], placed[j0]));
            }
        }
    }
}

proof fn lemma_insertion_point_map<A, B>(
    sorted: Seq<A>,
    f: spec_fn(A) -> B,
    key_a: spec_fn(A) -> int,
    key_b: spec_fn(B) -> int,
    x: A,
)
    requires
        forall|i: int| 0 <= i < sorted.len() ==> key_a(#[trigger] sorted[i]) == key_b(f(sorted[i])),
        key_a(x) == key_b(f(x)),
    ensures
        insertion_point(sorted.map_values(f), key_b, f(x)) == insertion_point(sorted, key_a, x),
    decreases sorted.len(),
{
    if sorted.len() > 0 {
        assert(sorted.map_values(f).last() == f(sorted.last()));
        assert(key_a(sorted.last()) == key_b(f(sorted.last())));
        if !(key_a(sorted.last()) <= key_a(x)) {
            let front = sorted.drop_last();
            assert(sorted.map_values(f).drop_last() =~= front.map_values(f));
            assert forall|i: int| 0 <= i < front.len() implies key_a(#[trigger] front[i]) == key_b(
                f(front[i]),
            ) by {
                assert(front[i] == sorted[i]);
            }
            lemma_insertion_point_map(front, f, key_a, key_b, x);
        }
    }
}

/// Sorting and renaming may change places: where `f` renames the elements and the keys of the
/// new names are the keys of the old ones, sorting the renamed sequence gives the renamed
/// sorted sequence.
pub proof fn lemma_stable_sort_map<A, B>(
    s: Seq<A>,
    f: spec_fn(A) -> B,
    key_a: spec_fn(A) -> int,
    key_b: spec_fn(B) -> int,
)
    requires
        forall|i: int| 0 <= i < s.len() ==> key_a(#[trigger] s[i]) == key_b(f(s[i])),
    ensures
        stable_sort_by(s.map_values(f), key_b) == stable_sort_by(s, key_a).map_values(f),
    decreases s.len(),
{
    let renamed = s.map_values(f);
    if s.len() > 0 {
        let front = s.drop_last();
        let placed = stable_sort_by(front, key_a);
        let x = s.last();
        assert(renamed.drop_last() =~= front.map_values(f));
        assert(renamed.last() == f(x));
        assert forall|i: int| 0 <= i < front.len() implies key_a(#[trigger] front[i]) == key_b(
            f(front[i]),
        ) by {
            assert(front[i] == s[i]);
        }
        lemma_stable_sort_map(front, f, key_a, key_b);
        lemma_stable_sort_permutes(front, key_a);
        lemma_stable_sort_keeps(front, key_a, |y: A| key_a(y) == key_b(f(y)));
        lemma_insertion_point_map(placed, f, key_a, key_b, x);
        lemma_insertion_point(placed, key_a, x);
        let p: int = insertion_point(placed, key_a, x);
        assert(placed.map_values(f).insert(p, f(x)) =~= placed.insert(p, x).map_values(f));
    } else {
        assert(stable_sort_by(s, key_a).map_values(f) =~= Seq::empty());
    }
}

/// Only the keys of the elements of `s` matter to its sort: two ways of telling the keys that
/// agree on those elements give the same result.
pub proof fn lemma_stable_sort_same_keys<A>(
    s: Seq<A>,
    key: spec_fn(A) -> int,
    other_key: spec_fn(A) -> int,
)
    requires
        forall|i: int| 0 <= i < s.len() ==> key(#[trigger] s[i]) == other_key(s[i]),
    ensures
        stable_sort_by(s, key) == stable_sort_by(s, other_key),
{
    let same = |x: A| x;
    lemma_stable_sort_map(s, same, key, other_key);
    assert(s.map_values(same) =~= s);
    assert(stable_sort_by(s, key).map_values(same) =~= stable_sort_by(s, key));
}

/// An order that cannot hold both ways between two elements leaves one way only to line up
/// given distinct elements: two sequences of the same distinct elements that are both in that
/// order are the same sequence.
pub proof fn lemma_order_determines_sequence<A>(
    first: Seq<A>,
    second: Seq<A>,
    before: spec_fn(A, A) -> bool,
)
    requires
        first.len() == second.len(),
        first.no_duplicates(),
        second.no_duplicates(),
        forall|x: A| first.contains(x) <==> second.contains(x),
        forall|a: A, b: A| !(#[trigger] before(a, b) && before(b, a)),
        forall|i: int, j: int|
            #![trigger first[i], first[j]]
            0 <= i < j < first.len() ==> before(first[i], first[j]),
        forall|i: int, j: int|
            #![trigger second[i], second[j]]
            0 <= i < j < second.len() ==> before(second[i], second[j]),
    ensures
        first == second,
{
    lemma_same_up_to(first, second, before, first.len() as int);
    assert(first =~= second);
}

proof fn lemma_same_up_to<A>(first: Seq<A>, second: Seq<A>, before: spec_fn(A, A) -> bool, n: int)
    requires
        0 <= n <= first.len(),
        first.len() == second.len(),
        first.no_duplicates(),
        second.no_duplicates(),
        forall|x: A| first.contains(x) <==> second.contains(x),
        forall|a: A, b: A| !(#[trigger] before(a, b) && before(b, a)),
        forall|i: int, j: int|
            #![trigger first[i], first[j]]
            0 <= i < j < first.len() ==> before(first[i], first[j]),
        forall|i: int, j: int|
            #![trigger second[i], second[j]]
            0 <= i < j < second.len() ==> before(second[i], second[j]),
    ensures
        forall|k: int| 0 <= k < n ==> first[k] == second[k],
    decreases n,
{
    if n > 0 {
        lemma_same_up_to(first, second, before, n - 1);
        let at: int = n - 1;
        let a = first[at];
        let b = second[at];
        if a != b {
            assert(first.contains(a));
            assert(second.contains(b));
            let a_in_second: int = second.index_of(a);
            let b_in_first: int = first.index_of(b);
            assert(second[a_in_second] == a);
            assert(first[b_in_first] == b);
            lemma_index_of_unique(first, at);
            lemma_index_of_unique(second, at);
            if a_in_second < at {
                assert(first[a_in_second] == a);
            }
            if b_in_first < at {
                assert(second[b_in_first] == b);
            }
            assert(before(second[at], second[a_in_second]));
            assert(before(first[at], first[b_in_first]));
        }
    }
}

/// Sorts the positions that `order` holds, stably, by the keys that `keys` gives them.
pub fn sort_positions(order: &Vec<usize>, keys: &Vec<u64>) -> (sorted: Vec<usize>)
    requires
        forall|k: int| 0 <= k < order.len() ==> order[k] < keys.len(),
    ensures
        sorted@ == stable_sort_by(order@, key_at(keys@)),
{
    let ghost key = key_at(keys@);
    let mut sorted: Vec<usize> = Vec::new();
    let mut i: usize = 0;
    while i < order.len()
        invariant
            i <= order.len(),
            key == key_at(keys@),
            forall|k: int| 0 <= k < order.len() ==> order[k] < keys.len(),
            forall|k: int| 0 <= k < sorted.len() ==> sorted[k] < keys.len(),
            sorted@ == stable_sort_by(order@.take(i as int), key),
        decreases order.len() - i,
    {
        let x: usize = order[i];
        let mut p: usize = sorted.len();
        assert(sorted@.take(p as int) =~= sorted@);
        while p > 0 && keys[sorted[p - 1]] > keys[x]
            invariant
                p <= sorted.len(),
                x < keys.len(),
                key == key_at(keys@),
                forall|k: int| 0 <= k < sorted.len() ==> sorted[k] < keys.len(),
                insertion_point(sorted@, key, x) == insertion_point(sorted@.take(p as int), key, x),
            decreases p,
        {
            assert(sorted@.take(p as int).drop_last() =~= sorted@.take(p - 1));
            p -= 1;
        }
        proof {
            let front = order@.take(i as int);
            let upto = order@.take(i + 1);
            assert(upto.drop_last() =~= front);
            assert(upto.last() == x);
            assert(insertion_point(sorted@, key, x) == p);
        }
        sorted.insert(p, x);
        i += 1;
    }
    assert(order@.take(order.len() as int) =~= order@);
    sorted
}

/// The positions of `entries` in ranking order: sorted stably by score, and the outcome sorted
/// stably by time. The distance is not looked at.
pub fn rank_positions(entries: &Vec<(u64, u64, u64)>) -> (ranked: Vec<usize>)
    ensures
        ranked@ == ranked_positions(entries@),
        ranked.len() == entries.len(),
        forall|k: int| 0 <= k < ranked.len() ==> ranked[k] < entries.len(),
{
    let count: usize = entries.len();
    let mut order: Vec<usize> = Vec::new();
    let mut scores: Vec<u64> = Vec::new();
    let mut times: Vec<u64> = Vec::new();
    let mut i: usize = 0;
    while i < count
        invariant
            i <= count,
            count == entries.len(),
            order.len() == i,
            scores.len() == i,
            times.len() == i,
            forall|k: int| 0 <= k < i ==> order[k] == k,
            forall|k: int| 0 <= k < i ==> scores[k] == entries[k].0,
            forall|k: int| 0 <= k < i ==> times[k] == entries[k].2,
        decreases count - i,
    {
        order.push(i);
        scores.push(entries[i].0);
        times.push(entries[i].2);
        i += 1;
    }
    let by_score = sort_positions(&order, &scores);
    proof {
        assert(order@ =~= positions(entries@.len()));
        lemma_stable_sort_same_keys(order@, key_at(scores@), score_at(entries@));
        lemma_stable_sort_permutes(order@, key_at(scores@));
        lemma_stable_sort_keeps(order@, key_at(scores@), |p: usize| p < count);
    }
    let ranked = sort_positions(&by_score, &times);
    proof {
        lemma_stable_sort_same_keys(by_score@, key_at(times@), time_at(entries@));
        lemma_stable_sort_permutes(by_score@, key_at(times@));
        lemma_stable_sort_keeps(by_score@, key_at(times@), |p: usize| p < count);
    }
    ranked
}

} // verus!
