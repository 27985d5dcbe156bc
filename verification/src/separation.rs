//! Which pairs of vehicles separation looks at.

use vstd::prelude::*;

verus! {

/// Separation considers pushing vehicle `a` away from vehicle `b`: they
/// are two different vehicles of the population and separation is enabled
/// on both. Whether a push results depends on how close they stand.
pub open spec fn considers(enabled: Seq<bool>, a: int, b: int) -> bool {
    &&& 0 <= a < enabled.len()
    &&& 0 <= b < enabled.len()
    &&& a != b
    &&& enabled[a]
    &&& enabled[b]
}

/// `first` comes before `second` when pairs are ordered by the pushed
/// vehicle and then by the vehicle it is pushed from.
pub open spec fn pair_before(first: (usize, usize), second: (usize, usize)) -> bool {
    first.0 < second.0 || (first.0 == second.0 && first.1 < second.1)
}

/// `pairs` lists exactly the pairs `(a, b)` that separation considers,
/// each once, ordered by `a` and then by `b`.
pub open spec fn is_separation_scan(enabled: Seq<bool>, pairs: Seq<(usize, usize)>) -> bool {
    &&& forall|k: int|
        0 <= k < pairs.len() ==> considers(enabled, (#[trigger] pairs[k]).0 as int, pairs[k].1 as int)
    &&& forall|a: int, b: int| #[trigger]
        considers(enabled, a, b) ==> pairs.contains((a as usize, b as usize))
    &&& forall|i: int, j: int|
        0 <= i < j < pairs.len() ==> pair_before(#[trigger] pairs[i], #[trigger] pairs[j])
}

/// Scans the population for the pairs that separation considers. Entry
/// `i` of `enabled` says whether separation is enabled on vehicle `i`.
/// Every vehicle gathers its own pushes, so two vehicles appear as a pair
/// in both orders.
pub fn separation_pairs(enabled: &Vec<bool>) -> (pairs: Vec<(usize, usize)>)
    ensures
        is_separation_scan(enabled@, pairs@),
{
    let mut pairs: Vec<(usize, usize)> = Vec::new();
    let count = enabled.len();
    let mut a: usize = 0;
    while a < count
        invariant
            a <= count,
            count == enabled.len(),
            forall|k: int|
                0 <= k < pairs.len() ==> considers(
                    enabled@,
                    (#[trigger] pairs@[k]).0 as int,
                    pairs@[k].1 as int,
                ),
            forall|k: int| 0 <= k < pairs.len() ==> (#[trigger] pairs@[k]).0 < a,
            forall|x: int, y: int| #[trigger]
                considers(enabled@, x, y) && x < a ==> pairs@.contains((x as usize, y as usize)),
            forall|i: int, j: int|
                0 <= i < j < pairs.len() ==> pair_before(
                    #[trigger] pairs@[i],
                    #[trigger] pairs@[j],
                ),
        decreases count - a,
    {
        let mut b: usize = 0;
        while b < count
            invariant
                a < count,
                b <= count,
                count == enabled.len(),
                forall|k: int|
                    0 <= k < pairs.len() ==> considers(
                        enabled@,
                        (#[trigger] pairs@[k]).0 as int,
                        pairs@[k].1 as int,
                    ),
                forall|k: int|
                    0 <= k < pairs.len() ==> pair_before(#[trigger] pairs@[k], (a, b)),
                forall|x: int, y: int| #[trigger]
                    considers(enabled@, x, y) && (x < a || (x == a && y < b)) ==> pairs@.contains(
                        (x as usize, y as usize),
                    ),
                forall|i: int, j: int|
                    0 <= i < j < pairs.len() ==> pair_before(
                        #[trigger] pairs@[i],
                        #[trigger] pairs@[j],
                    ),
            decreases count - b,
        {
            if a != b && enabled[a] && enabled[b] {
                let ghost before = pairs@;
                pairs.push((a, b));
                proof {
                    assert(pairs@[before.len() as int] == (a, b));
                    assert forall|x: int, y: int| #[trigger]
                        considers(enabled@, x, y) && (x < a || (x == a && y < b + 1))
                        implies pairs@.contains((x as usize, y as usize)) by {
                        if x == a && y == b {
                            assert(pairs@[before.len() as int] == (x as usize, y as usize));
                        } else {
                            let at = choose|at: int|
                                0 <= at < before.len() && before[at] == (x as usize, y as usize);
                            assert(pairs@[at] == (x as usize, y as usize));
                        }
                    }
                }
            }
            b = b + 1;
        }
        a = a + 1;
    }
    pairs
}

/// Separation is mutual: whenever it considers pushing one vehicle away
/// from another, it considers pushing the other away from the first, so a
/// scan holds a pair in both orders or in neither.
pub proof fn lemma_separation_is_mutual(
    enabled: Seq<bool>,
    pairs: Seq<(usize, usize)>,
    a: usize,
    b: usize,
)
    requires
        is_separation_scan(enabled, pairs),
    ensures
        considers(enabled, a as int, b as int) == considers(enabled, b as int, a as int),
        pairs.contains((a, b)) == considers(enabled, a as int, b as int),
        pairs.contains((a, b)) == pairs.contains((b, a)),
{
    lemma_scan_holds_what_considers(enabled, pairs, a, b);
    lemma_scan_holds_what_considers(enabled, pairs, b, a);
}

/// A scan holds a pair exactly when separation considers it.
pub proof fn lemma_scan_holds_what_considers(
    enabled: Seq<bool>,
    pairs: Seq<(usize, usize)>,
    a: usize,
    b: usize,
)
    requires
        is_separation_scan(enabled, pairs),
    ensures
        pairs.contains((a, b)) == considers(enabled, a as int, b as int),
{
    if pairs.contains((a, b)) {
        let at = choose|at: int| 0 <= at < pairs.len() && pairs[at] == (a, b);
        assert(considers(enabled, pairs[at].0 as int, pairs[at].1 as int));
    }
    if considers(enabled, a as int, b as int) {
        assert(pairs.contains((a as int as usize, b as int as usize)));
    }
}

/// Two scans of the same population are the same list: the scan is
/// determined by which vehicles have separation enabled.
pub proof fn lemma_scan_is_unique(
    enabled: Seq<bool>,
    first: Seq<(usize, usize)>,
    second: Seq<(usize, usize)>,
)
    requires
        is_separation_scan(enabled, first),
        is_separation_scan(enabled, second),
    ensures
        first == second,
{
    assert forall|pair: (usize, usize)| first.contains(pair) == second.contains(pair) by {
        lemma_scan_holds_what_considers(enabled, first, pair.0, pair.1);
        lemma_scan_holds_what_considers(enabled, second, pair.0, pair.1);
    }
    lemma_ordered_lists_agree(first, second);
}

/// Two lists of pairs in strictly increasing order that hold the same
/// pairs are the same list.
pub proof fn lemma_ordered_lists_agree(first: Seq<(usize, usize)>, second: Seq<(usize, usize)>)
    requires
        forall|i: int, j: int|
            0 <= i < j < first.len() ==> pair_before(#[trigger] first[i], #[trigger] first[j]),
        forall|i: int, j: int|
            0 <= i < j < second.len() ==> pair_before(#[trigger] second[i], #[trigger] second[j]),
        forall|pair: (usize, usize)| first.contains(pair) == second.contains(pair),
    ensures
        first == second,
    decreases first.len(),
{
    if first.len() == 0 {
        if second.len() > 0 {
            assert(second.contains(second[0]));
        }
        assert(first =~= second);
    } else {
        let last = first.last();
        assert(first.contains(last));
        let at = choose|at: int| 0 <= at < second.len() && second[at] == last;
        assert(second.contains(second.last()));
        let back = choose|back: int| 0 <= back < first.len() && first[back] == second.last();
        if at < second.len() - 1 {
            assert(pair_before(second[at], second[second.len() - 1]));
        }
        if back < first.len() - 1 {
            assert(pair_before(first[back], first[first.len() - 1]));
        }
        assert(second.last() == last);
        let rest_first = first.drop_last();
        let rest_second = second.drop_last();
        assert forall|pair: (usize, usize)| rest_first.contains(pair) == rest_second.contains(
            pair,
        ) by {
            if rest_first.contains(pair) {
                let i = choose|i: int| 0 <= i < rest_first.len() && rest_first[i] == pair;
                assert(first[i] == pair);
                assert(pair_before(first[i], first[first.len() - 1]));
                assert(first.contains(pair));
                let j = choose|j: int| 0 <= j < second.len() && second[j] == pair;
                assert(rest_second[j] == pair);
            }
            if rest_second.contains(pair) {
                let i = choose|i: int| 0 <= i < rest_second.len() && rest_second[i] == pair;
                assert(second[i] == pair);
                assert(pair_before(second[i], second[second.len() - 1]));
                assert(second.contains(pair));
                let j = choose|j: int| 0 <= j < first.len() && first[j] == pair;
                assert(rest_first[j] == pair);
            }
        }
        assert forall|i: int, j: int| 0 <= i < j < rest_first.len() implies pair_before(
            #[trigger] rest_first[i],
            #[trigger] rest_first[j],
        ) by {
            assert(pair_before(first[i], first[j]));
        }
        assert forall|i: int, j: int| 0 <= i < j < rest_second.len() implies pair_before(
            #[trigger] rest_second[i],
            #[trigger] rest_second[j],
        ) by {
            assert(pair_before(second[i], second[j]));
        }
        lemma_ordered_lists_agree(rest_first, rest_second);
        assert(first =~= rest_first.push(last));
        assert(second =~= rest_second.push(last));
    }
}

} // verus!
