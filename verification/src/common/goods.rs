use vstd::prelude::*;

verus! {

/// The currencies that markets and traders exchange.
#[derive(Clone, Copy, Debug, PartialEq, Eq, Structural, Hash)]
pub enum GoodKind {
    EUR,
    YEN,
    USD,
    YUAN,
}

/// What a trader reports to the visualizer about one of its operations.
#[derive(Clone, Copy, Debug, PartialEq, Eq, Structural)]
pub enum CustomEventKind {
    Bought,
    Sold,
    LockedBuy,
    LockedSell,
    Wait,
}

/// The kinds of market events that a trader reacts to.
#[derive(Clone, Copy, Debug, PartialEq, Eq, Structural)]
pub enum EventKind {
    Bought,
    Sold,
    LockedBuy,
    LockedSell,
    Wait,
}

/// The position of the first entry of kind `k` in `kinds`, if any.
pub open spec fn first_of_kind(kinds: Seq<GoodKind>, k: GoodKind) -> Option<int>
    decreases kinds.len(),
{
    if kinds.len() == 0 {
        None
    } else {
        match first_of_kind(kinds.drop_last(), k) {
            Some(i) => Some(i),
            None => if kinds.last() == k { Some(kinds.len() - 1) } else { None },
        }
    }
}

/// The position of the last entry of kind `k` in `kinds`, if any.
pub open spec fn last_of_kind(kinds: Seq<GoodKind>, k: GoodKind) -> Option<int>
    decreases kinds.len(),
{
    if kinds.len() == 0 {
        None
    } else if kinds.last() == k {
        Some(kinds.len() - 1)
    } else {
        last_of_kind(kinds.drop_last(), k)
    }
}

/// Finds the first entry of kind `k`, as a search that stops at the first match does.
pub fn first_index_of_kind(kinds: &Vec<GoodKind>, k: GoodKind) -> (res: Option<usize>)
    ensures
        match (res, first_of_kind(kinds@, k)) {
            (Some(i), Some(j)) => i == j,
            (None, None) => true,
            _ => false,
        },
{
    let mut i: usize = 0;
    while i < kinds.len()
        invariant
            i <= kinds@.len(),
            first_of_kind(kinds@.take(i as int), k) is None,
        decreases kinds@.len() - i,
    {
        proof {
            assert(kinds@.take(i + 1).drop_last() =~= kinds@.take(i as int));
        }
        if kinds[i] == k {
            proof {
                lemma_first_of_kind_prefix(kinds@, k, i as int);
            }
            return Some(i);
        }
        i = i + 1;
    }
    proof {
        assert(kinds@.take(kinds@.len() as int) =~= kinds@);
    }
    None
}

proof fn lemma_first_of_kind_prefix(kinds: Seq<GoodKind>, k: GoodKind, i: int)
    requires
        0 <= i < kinds.len(),
        kinds[i] == k,
        first_of_kind(kinds.take(i), k) is None,
    ensures
        first_of_kind(kinds, k) == Some(i),
    decreases kinds.len(),
{
    if kinds.len() - 1 > i {
        assert(kinds.drop_last().take(i) =~= kinds.take(i));
        lemma_first_of_kind_prefix(kinds.drop_last(), k, i);
    } else {
        assert(kinds.drop_last() =~= kinds.take(i));
    }
}

/// Finds the last entry of kind `k`, as a scan over all entries that keeps the
/// latest match does.
pub fn last_index_of_kind(kinds: &Vec<GoodKind>, k: GoodKind) -> (res: Option<usize>)
    ensures
        match (res, last_of_kind(kinds@, k)) {
            (Some(i), Some(j)) => i == j,
            (None, None) => true,
            _ => false,
        },
{
    let mut result: Option<usize> = None;
    let mut i: usize = 0;
    while i < kinds.len()
        invariant
            i <= kinds@.len(),
            match (result, last_of_kind(kinds@.take(i as int), k)) {
                (Some(a), Some(j)) => a == j,
                (None, None) => true,
                _ => false,
            },
        decreases kinds@.len() - i,
    {
        proof {
            assert(kinds@.take(i + 1).drop_last() =~= kinds@.take(i as int));
        }
        if kinds[i] == k {
            result = Some(i);
        }
        i = i + 1;
    }
    proof {
        assert(kinds@.take(kinds@.len() as int) =~= kinds@);
    }
    result
}

/// The first entry of a kind is of that kind and no earlier entry is; where there is
/// none, no entry is of that kind.
pub proof fn lemma_first_of_kind_is_first(kinds: Seq<GoodKind>, k: GoodKind)
    ensures
        match first_of_kind(kinds, k) {
            Some(i) => 0 <= i < kinds.len() && kinds[i] == k
                && forall|j: int| 0 <= j < i ==> kinds[j] != k,
            None => forall|j: int| 0 <= j < kinds.len() ==> kinds[j] != k,
        },
    decreases kinds.len(),
{
    if kinds.len() > 0 {
        lemma_first_of_kind_is_first(kinds.drop_last(), k);
        assert(forall|j: int| 0 <= j < kinds.len() - 1 ==> kinds.drop_last()[j] == kinds[j]);
    }
}

/// The last entry of a kind is of that kind and no later entry is; where there is
/// none, no entry is of that kind.
pub proof fn lemma_last_of_kind_is_last(kinds: Seq<GoodKind>, k: GoodKind)
    ensures
        match last_of_kind(kinds, k) {
            Some(i) => 0 <= i < kinds.len() && kinds[i] == k
                && forall|j: int| i < j < kinds.len() ==> kinds[j] != k,
            None => forall|j: int| 0 <= j < kinds.len() ==> kinds[j] != k,
        },
    decreases kinds.len(),
{
    if kinds.len() > 0 {
        lemma_last_of_kind_is_last(kinds.drop_last(), k);
        assert(forall|j: int| 0 <= j < kinds.len() - 1 ==> kinds.drop_last()[j] == kinds[j]);
    }
}

} // verus!
