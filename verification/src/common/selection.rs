use vstd::prelude::*;
use crate::common::goods::GoodKind;

verus! {

// Quotes of the markets are handed to these functions as order keys: integers that
// compare as the prices or quantities that they stand for. `None` stands for a
// market that answered a query with an error.

/// The index that a left-to-right pairwise choice ends on: the first entry is held,
/// and each later entry replaces the held one unless `keeps(held, next)`.
pub open spec fn fold_choice<T>(q: Seq<T>, keeps: spec_fn(T, T) -> bool) -> int
    decreases q.len(),
{
    if q.len() <= 1 {
        0
    } else {
        let held = fold_choice(q.drop_last(), keeps);
        if keeps(q[held], q.last()) {
            held
        } else {
            q.len() - 1
        }
    }
}

/// The most expensive market for selling: a held quote is kept when the next one is
/// strictly lower, or when either of them is an error.
pub open spec fn sell_keeps(held: Option<i64>, next: Option<i64>) -> bool {
    match (held, next) {
        (Some(a), Some(b)) => a > b,
        _ => true,
    }
}

/// The cheapest market for buying: a held quote is kept when it is not higher than
/// the next one, or when the held one is an error and the next one is not.
pub open spec fn buy_keeps(held: Option<i64>, next: Option<i64>) -> bool {
    match (held, next) {
        (Some(a), Some(b)) => a <= b,
        (_, Some(_)) => true,
        _ => false,
    }
}

/// A largest value, the last of equal ones.
pub open spec fn last_max_keeps(held: i64, next: i64) -> bool {
    held > next
}

pub proof fn lemma_fold_choice_in_range<T>(q: Seq<T>, keeps: spec_fn(T, T) -> bool)
    requires
        q.len() > 0,
    ensures
        0 <= fold_choice(q, keeps) < q.len(),
    decreases q.len(),
{
    if q.len() > 1 {
        lemma_fold_choice_in_range(q.drop_last(), keeps);
    }
}

/// Index of the market to sell to among `quotes`, chosen as the trader's
/// maximum-by-sell-price does; `None` when there is no market.
pub fn choose_sell_market(quotes: &Vec<Option<i64>>) -> (res: Option<usize>)
    ensures
        quotes@.len() == 0 <==> res is None,
        res matches Some(i) ==> i == sell_choice(quotes@),
{
    if quotes.len() == 0 {
        return None;
    }
    let ghost keeps = |a: Option<i64>, b: Option<i64>| sell_keeps(a, b);
    let mut held: usize = 0;
    let mut i: usize = 1;
    while i < quotes.len()
        invariant
            1 <= i <= quotes.len(),
            held < i,
            keeps == (|a: Option<i64>, b: Option<i64>| sell_keeps(a, b)),
            held == fold_choice(quotes@.take(i as int), keeps),
        decreases quotes.len() - i,
    {
        let keep = match (quotes[held], quotes[i]) {
            (Some(a), Some(b)) => a > b,
            _ => true,
        };
        proof {
            let next = quotes@.take(i + 1);
            assert(next.drop_last() =~= quotes@.take(i as int));
            assert(next[held as int] == quotes@[held as int]);
            assert(next.last() == quotes@[i as int]);
            assert(keep == keeps(quotes@[held as int], quotes@[i as int]));
        }
        if !keep {
            held = i;
        }
        i = i + 1;
    }
    proof {
        assert(quotes@.take(quotes.len() as int) =~= quotes@);
    }
    Some(held)
}

/// Index of the market to buy from among `quotes`, chosen as the trader's
/// minimum-by-buy-price does; `None` when there is no market.
pub fn choose_buy_market(quotes: &Vec<Option<i64>>) -> (res: Option<usize>)
    ensures
        quotes@.len() == 0 <==> res is None,
        res matches Some(i) ==> i == buy_choice(quotes@),
{
    if quotes.len() == 0 {
        return None;
    }
    let ghost keeps = |a: Option<i64>, b: Option<i64>| buy_keeps(a, b);
    let mut held: usize = 0;
    let mut i: usize = 1;
    while i < quotes.len()
        invariant
            1 <= i <= quotes.len(),
            held < i,
            keeps == (|a: Option<i64>, b: Option<i64>| buy_keeps(a, b)),
            held == fold_choice(quotes@.take(i as int), keeps),
        decreases quotes.len() - i,
    {
        let keep = match (quotes[held], quotes[i]) {
            (Some(a), Some(b)) => a <= b,
            (_, Some(_)) => true,
            _ => false,
        };
        proof {
            let next = quotes@.take(i + 1);
            assert(next.drop_last() =~= quotes@.take(i as int));
            assert(next[held as int] == quotes@[held as int]);
            assert(next.last() == quotes@[i as int]);
            assert(keep == keeps(quotes@[held as int], quotes@[i as int]));
        }
        if !keep {
            held = i;
        }
        i = i + 1;
    }
    proof {
        assert(quotes@.take(quotes.len() as int) =~= quotes@);
    }
    Some(held)
}

/// The quantity keys of a market's labels, which hold a currency, the key of the
/// quantity the market holds, and the key of the rate at which it sells.
pub open spec fn label_quantities(labels: Seq<(GoodKind, i64, i64)>) -> Seq<i64> {
    labels.map_values(|l: (GoodKind, i64, i64)| l.1)
}

/// The label that holds the largest quantity of a market, the last of equal ones.
pub open spec fn most_stocked(labels: Seq<(GoodKind, i64, i64)>) -> int {
    fold_choice(label_quantities(labels), |a: i64, b: i64| last_max_keeps(a, b))
}

/// For each market in turn whose most stocked label is not the euro: the market's
/// index and that label's index.
pub open spec fn stock_candidates(markets: Seq<Vec<(GoodKind, i64, i64)>>) -> Seq<(int, int)>
    decreases markets.len(),
{
    if markets.len() == 0 {
        Seq::empty()
    } else {
        let prev = stock_candidates(markets.drop_last());
        let labels = markets.last()@;
        if labels.len() > 0 && labels[most_stocked(labels)].0 != GoodKind::EUR {
            prev.push((markets.len() - 1, most_stocked(labels)))
        } else {
            prev
        }
    }
}

/// The keys of the candidates' labels: the quantity held and the buying rate.
pub open spec fn candidate_keys(markets: Seq<Vec<(GoodKind, i64, i64)>>, c: Seq<(int, int)>) -> Seq<(i64, i64)> {
    c.map_values(|x: (int, int)| (markets[x.0]@[x.1].1, markets[x.0]@[x.1].2))
}

/// The best purchase is kept over the next candidate when it holds more, or as much
/// at a buying rate that is not higher.
pub open spec fn best_keeps(held: (i64, i64), next: (i64, i64)) -> bool {
    held.0 > next.0 || (held.0 == next.0 && held.1 <= next.1)
}

/// Among the candidates, the one whose label holds the largest quantity; of equal
/// quantities, the one with the lowest buying rate; of those, the first.
pub open spec fn best_candidate(markets: Seq<Vec<(GoodKind, i64, i64)>>) -> Option<(int, int)> {
    let c = stock_candidates(markets);
    if c.len() == 0 {
        None
    } else {
        Some(
            c[fold_choice(
                candidate_keys(markets, c),
                |a: (i64, i64), b: (i64, i64)| best_keeps(a, b),
            )],
        )
    }
}

/// Index of the label holding the largest quantity, the last of equal ones.
pub fn most_stocked_label(labels: &Vec<(GoodKind, i64, i64)>) -> (res: usize)
    requires
        labels@.len() > 0,
    ensures
        res == most_stocked(labels@),
{
    let ghost keeps = |a: i64, b: i64| last_max_keeps(a, b);
    let ghost q = label_quantities(labels@);
    let mut held: usize = 0;
    let mut i: usize = 1;
    while i < labels.len()
        invariant
            1 <= i <= labels.len(),
            held < i,
            q == label_quantities(labels@),
            keeps == (|a: i64, b: i64| last_max_keeps(a, b)),
            held == fold_choice(q.take(i as int), keeps),
        decreases labels.len() - i,
    {
        let keep = labels[held].1 > labels[i].1;
        proof {
            let next = q.take(i + 1);
            assert(next.drop_last() =~= q.take(i as int));
            assert(next[held as int] == q[held as int]);
            assert(next.last() == q[i as int]);
            assert(keep == keeps(q[held as int], q[i as int]));
        }
        if !keep {
            held = i;
        }
        i = i + 1;
    }
    proof {
        assert(q.take(labels.len() as int) =~= q);
    }
    held
}

/// The market, and the label in it, that the trader's search for the best purchase
/// picks: in each market the label holding the most, unless it is the euro; of
/// those, the one holding the most, at the lowest buying rate among equal quantities.
pub fn pick_best_candidate(markets: &Vec<Vec<(GoodKind, i64, i64)>>) -> (res: Option<(usize, usize)>)
    ensures
        match (res, best_candidate(markets@)) {
            (None, None) => true,
            (Some((m, l)), Some((sm, sl))) => m == sm && l == sl,
            _ => false,
        },
{
    let mut cands: Vec<(usize, usize)> = Vec::new();
    let mut keys: Vec<(i64, i64)> = Vec::new();
    let mut m: usize = 0;
    while m < markets.len()
        invariant
            m <= markets.len(),
            cands@.len() == keys@.len(),
            cands@.len() == stock_candidates(markets@.take(m as int)).len(),
            forall|k: int| 0 <= k < cands@.len() ==> {
                &&& (#[trigger] cands@[k]).0 as int == stock_candidates(markets@.take(m as int))[k].0
                &&& cands@[k].1 as int == stock_candidates(markets@.take(m as int))[k].1
                &&& cands@[k].0 < m
                &&& cands@[k].1 < markets@[cands@[k].0 as int]@.len()
                &&& keys@[k] == (markets@[cands@[k].0 as int]@[cands@[k].1 as int].1, markets@[cands@[k].0 as int]@[cands@[k].1 as int].2)
            },
        decreases markets.len() - m,
    {
        proof {
            assert(markets@.take(m + 1).drop_last() =~= markets@.take(m as int));
            assert(markets@.take(m + 1).last() == markets@[m as int]);
        }
        if markets[m].len() > 0 {
            let j = most_stocked_label(&markets[m]);
            proof {
                lemma_fold_choice_in_range(label_quantities(markets@[m as int]@), |a: i64, b: i64| last_max_keeps(a, b));
            }
            if markets[m][j].0 != GoodKind::EUR {
                cands.push((m, j));
                keys.push((markets[m][j].1, markets[m][j].2));
            }
        }
        m = m + 1;
    }
    proof {
        assert(markets@.take(markets.len() as int) =~= markets@);
    }
    let ghost c = stock_candidates(markets@);
    if cands.len() == 0 {
        return None;
    }
    let ghost keeps = |a: (i64, i64), b: (i64, i64)| best_keeps(a, b);
    let ghost q = candidate_keys(markets@, c);
    proof {
        assert(markets@.take(markets.len() as int) =~= markets@);
        assert forall|k: int| 0 <= k < keys@.len() implies keys@[k] == q[k] by {
            assert(cands@[k].0 as int == c[k].0);
            assert(cands@[k].1 as int == c[k].1);
        }
        assert(keys@ =~= q);
    }
    let mut held: usize = 0;
    let mut i: usize = 1;
    while i < keys.len()
        invariant
            1 <= i <= keys.len(),
            held < i,
            keys@ == q,
            keeps == (|a: (i64, i64), b: (i64, i64)| best_keeps(a, b)),
            held == fold_choice(q.take(i as int), keeps),
        decreases keys.len() - i,
    {
        let keep = keys[held].0 > keys[i].0 || (keys[held].0 == keys[i].0 && keys[held].1 <= keys[i].1);
        proof {
            let next = q.take(i + 1);
            assert(next.drop_last() =~= q.take(i as int));
            assert(next[held as int] == q[held as int]);
            assert(next.last() == q[i as int]);
            assert(keep == keeps(q[held as int], q[i as int]));
        }
        if !keep {
            held = i;
        }
        i = i + 1;
    }
    proof {
        assert(q.take(keys.len() as int) =~= q);
    }
    Some(cands[held])
}

/// Whether `p` is strictly better than `best`: lower when `lower` holds, higher otherwise.
pub open spec fn improves(p: i64, best: Option<i64>, lower: bool) -> bool {
    match best {
        None => true,
        Some(b) => if lower { p < b } else { p > b },
    }
}

/// A left-to-right scan that starts from `bound` (or from nothing) and moves to an
/// entry only when its quote strictly improves on the best seen so far: the index
/// it ends on, if it moved at all, and the best value.
pub open spec fn strict_scan(q: Seq<Option<i64>>, bound: Option<i64>, lower: bool) -> (Option<int>, Option<i64>)
    decreases q.len(),
{
    if q.len() == 0 {
        (None, bound)
    } else {
        let prev = strict_scan(q.drop_last(), bound, lower);
        match q.last() {
            Some(p) => if improves(p, prev.1, lower) {
                (Some(q.len() - 1), Some(p))
            } else {
                prev
            },
            None => prev,
        }
    }
}

/// What a strict scan ends on: an entry that improves on the bound and that no
/// entry improves on, the first of equal ones; or, when no entry improves on the
/// bound, nothing.
pub proof fn lemma_strict_scan_optimal(q: Seq<Option<i64>>, bound: Option<i64>, lower: bool)
    ensures
        strict_scan(q, bound, lower).0 matches Some(i) ==> {
            &&& 0 <= i < q.len()
            &&& q[i] == Some(strict_scan(q, bound, lower).1->Some_0)
            &&& strict_scan(q, bound, lower).1 is Some
            &&& improves(strict_scan(q, bound, lower).1->Some_0, bound, lower)
            &&& forall|j: int| 0 <= j < q.len() && (#[trigger] q[j]) is Some ==>
                !improves(q[j]->Some_0, strict_scan(q, bound, lower).1, lower)
            &&& forall|j: int| 0 <= j < i && (#[trigger] q[j]) is Some ==>
                q[j]->Some_0 != strict_scan(q, bound, lower).1->Some_0
        },
        strict_scan(q, bound, lower).0 is None ==> {
            &&& strict_scan(q, bound, lower).1 == bound
            &&& forall|j: int| 0 <= j < q.len() && (#[trigger] q[j]) is Some ==>
                !improves(q[j]->Some_0, bound, lower)
        },
    decreases q.len(),
{
    if q.len() > 0 {
        let d = q.drop_last();
        lemma_strict_scan_optimal(d, bound, lower);
        let prev = strict_scan(d, bound, lower);
        let cur = strict_scan(q, bound, lower);
        let n = q.len() - 1;
        assert forall|j: int| 0 <= j < n implies q[j] == #[trigger] d[j] by {}
        if q.last() is Some && improves(q.last()->Some_0, prev.1, lower) {
            let p = q.last()->Some_0;
            assert(cur == (Some(n), Some(p)));
            assert forall|j: int| 0 <= j < q.len() && (#[trigger] q[j]) is Some implies
                !improves(q[j]->Some_0, cur.1, lower) by {
                if j < n {
                    assert(d[j] is Some);
                    if prev.0 is None {
                        assert(!improves(d[j]->Some_0, bound, lower));
                    }
                }
            }
            assert forall|j: int| 0 <= j < n && (#[trigger] q[j]) is Some implies
                q[j]->Some_0 != p by {
                assert(d[j] is Some);
                if prev.0 is None {
                    assert(!improves(d[j]->Some_0, bound, lower));
                }
            }
            if prev.0 is None {
                assert(prev.1 == bound);
            } else {
                assert(improves(prev.1->Some_0, bound, lower));
            }
        } else {
            assert(cur == prev);
            assert forall|j: int| 0 <= j < q.len() && (#[trigger] q[j]) is Some implies
                !improves(q[j]->Some_0, cur.1, lower) by {
                if j < n {
                    assert(d[j] is Some);
                }
            }
            if let Some(i) = prev.0 {
                assert forall|j: int| 0 <= j < i && (#[trigger] q[j]) is Some implies
                    q[j]->Some_0 != cur.1->Some_0 by {
                    assert(d[j] is Some);
                }
                assert(q[i] == d[i]);
            }
        }
    }
}

/// Index of the entry that a strict scan from `bound` ends on, if it moves at all.
pub fn scan_strictly_better(quotes: &Vec<Option<i64>>, bound: Option<i64>, lower: bool) -> (res: Option<usize>)
    ensures
        match (res, strict_scan(quotes@, bound, lower).0) {
            (None, None) => true,
            (Some(i), Some(j)) => i == j,
            _ => false,
        },
{
    let mut held: Option<usize> = None;
    let mut best: Option<i64> = bound;
    let mut i: usize = 0;
    while i < quotes.len()
        invariant
            i <= quotes.len(),
            held matches Some(h) ==> h < i,
            (match (held, strict_scan(quotes@.take(i as int), bound, lower).0) {
                (None, None) => true,
                (Some(h), Some(j)) => h == j,
                _ => false,
            }),
            best == strict_scan(quotes@.take(i as int), bound, lower).1,
        decreases quotes.len() - i,
    {
        proof {
            let next = quotes@.take(i + 1);
            assert(next.drop_last() =~= quotes@.take(i as int));
            assert(next.last() == quotes@[i as int]);
        }
        if let Some(p) = quotes[i] {
            let better = match best {
                None => true,
                Some(b) => if lower { p < b } else { p > b },
            };
            if better {
                held = Some(i);
                best = Some(p);
            }
        }
        i = i + 1;
    }
    proof {
        assert(quotes@.take(quotes.len() as int) =~= quotes@);
    }
    held
}

/// In a stable ordering from the largest key down, entry `x` comes before entry `y`.
pub open spec fn precedes(keys: Seq<i64>, x: int, y: int) -> bool {
    keys[x] > keys[y] || (keys[x] == keys[y] && x < y)
}

/// `order` lists every index of `keys` once, from the largest key down, equal keys
/// in the order in which they stand in `keys`: what a stable sort by descending key
/// makes of the entries.
pub open spec fn is_stable_descending_order(keys: Seq<i64>, order: Seq<usize>) -> bool {
    &&& order.len() == keys.len()
    &&& forall|a: int| 0 <= a < order.len() ==> (#[trigger] order[a]) < keys.len()
    &&& forall|a: int, b: int| 0 <= a < b < order.len() ==> precedes(keys, #[trigger] order[a] as int, #[trigger] order[b] as int)
    &&& forall|x: int| 0 <= x < keys.len() ==> #[trigger] order.contains(x as usize)
}

/// The indices of `keys`, ordered as a stable sort from the largest key down orders
/// the entries.
pub fn rank_descending(keys: &Vec<i64>) -> (order: Vec<usize>)
    ensures
        is_stable_descending_order(keys@, order@),
{
    let mut order: Vec<usize> = Vec::new();
    let mut i: usize = 0;
    while i < keys.len()
        invariant
            i <= keys.len(),
            order@.len() == i,
            forall|a: int| 0 <= a < order@.len() ==> (#[trigger] order@[a]) < i,
            forall|a: int, b: int| 0 <= a < b < order@.len() ==> precedes(keys@, #[trigger] order@[a] as int, #[trigger] order@[b] as int),
            forall|x: int| 0 <= x < i ==> #[trigger] order@.contains(x as usize),
        decreases keys.len() - i,
    {
        let k = keys[i];
        let mut pos: usize = 0;
        while pos < order.len() && keys[order[pos]] >= k
            invariant
                pos <= order@.len(),
                order@.len() == i,
                i < keys@.len(),
                k == keys@[i as int],
                forall|a: int| 0 <= a < order@.len() ==> (#[trigger] order@[a]) < i,
                forall|a: int| 0 <= a < pos ==> keys@[#[trigger] order@[a] as int] >= k,
            decreases order@.len() - pos,
        {
            pos = pos + 1;
        }
        let ghost old_order = order@;
        proof {
            // every entry from `pos` on has a smaller key than the new one
            assert forall|a: int| pos <= a < old_order.len() implies keys@[#[trigger] old_order[a] as int] < k by {
                if a > pos {
                    assert(precedes(keys@, old_order[pos as int] as int, old_order[a] as int));
                }
            }
        }
        order.insert(pos, i);
        proof {
            let o = order@;
            assert(o == old_order.insert(pos as int, i));
            assert forall|a: int| 0 <= a < o.len() implies (#[trigger] o[a]) < i + 1 by {
                if a < pos {
                    assert(o[a] == old_order[a]);
                } else if a > pos {
                    assert(o[a] == old_order[a - 1]);
                }
            }
            assert forall|a: int, b: int| 0 <= a < b < o.len() implies precedes(keys@, #[trigger] o[a] as int, #[trigger] o[b] as int) by {
                if b < pos {
                    assert(o[a] == old_order[a] && o[b] == old_order[b]);
                } else if b == pos {
                    assert(o[a] == old_order[a]);
                } else if a < pos {
                    assert(o[a] == old_order[a] && o[b] == old_order[b - 1]);
                    assert(precedes(keys@, old_order[a] as int, old_order[b - 1] as int));
                } else if a == pos {
                    assert(o[b] == old_order[b - 1]);
                } else {
                    assert(o[a] == old_order[a - 1] && o[b] == old_order[b - 1]);
                    assert(precedes(keys@, old_order[a - 1] as int, old_order[b - 1] as int));
                }
            }
            assert forall|x: int| 0 <= x < i + 1 implies #[trigger] o.contains(x as usize) by {
                if x == i {
                    assert(o[pos as int] == i);
                } else {
                    assert(old_order.contains(x as usize));
                    let a = choose|a: int| 0 <= a < old_order.len() && old_order[a] == x as usize;
                    if a < pos {
                        assert(o[a] == x as usize);
                    } else {
                        assert(o[a + 1] == x as usize);
                    }
                }
            }
        }
        i = i + 1;
    }
    order
}

proof fn lemma_stable_orders_agree_upto(keys: Seq<i64>, o1: Seq<usize>, o2: Seq<usize>, a: int)
    requires
        is_stable_descending_order(keys, o1),
        is_stable_descending_order(keys, o2),
        0 <= a <= o1.len(),
    ensures
        forall|c: int| 0 <= c < a ==> o1[c] == o2[c],
    decreases a,
{
    if a > 0 {
        let p = a - 1;
        lemma_stable_orders_agree_upto(keys, o1, o2, p);
        let x = o1[p];
        let y = o2[p];
        if x != y {
            let xi = x as int;
            assert(xi < keys.len());
            assert(o2.contains(xi as usize));
            let b = choose|b: int| 0 <= b < o2.len() && o2[b] == x;
            if b < p {
                assert(o1[b] == x);
                assert(precedes(keys, o1[b] as int, o1[p] as int));
            }
            assert(precedes(keys, o2[p] as int, o2[b] as int));
            let yi = y as int;
            assert(yi < keys.len());
            assert(o1.contains(yi as usize));
            let c = choose|c: int| 0 <= c < o1.len() && o1[c] == y;
            if c < p {
                assert(o2[c] == y);
                assert(precedes(keys, o2[c] as int, o2[p] as int));
            }
            assert(precedes(keys, o1[p] as int, o1[c] as int));
        }
    }
}

/// The stable descending order of a list of keys is unique: two orders that both
/// list every index once, from the largest key down with ties in list order, are
/// the same order.
pub proof fn lemma_stable_descending_order_unique(keys: Seq<i64>, o1: Seq<usize>, o2: Seq<usize>)
    requires
        is_stable_descending_order(keys, o1),
        is_stable_descending_order(keys, o2),
    ensures
        o1 == o2,
{
    lemma_stable_orders_agree_upto(keys, o1, o2, o1.len() as int);
    assert(o1 =~= o2);
}

/// The market that the trader's maximum-by-sell-price ends on.
pub open spec fn sell_choice(q: Seq<Option<i64>>) -> int {
    fold_choice(q, |a: Option<i64>, b: Option<i64>| sell_keeps(a, b))
}

/// The market that the trader's minimum-by-buy-price ends on.
pub open spec fn buy_choice(q: Seq<Option<i64>>) -> int {
    fold_choice(q, |a: Option<i64>, b: Option<i64>| buy_keeps(a, b))
}

/// When every market quotes a price, the market chosen for selling quotes the highest
/// price, and no later market quotes as much.
pub proof fn lemma_sell_choice_is_highest(q: Seq<Option<i64>>)
    requires
        q.len() > 0,
        forall|j: int| 0 <= j < q.len() ==> (#[trigger] q[j]) is Some,
    ensures
        0 <= sell_choice(q) < q.len(),
        forall|j: int| 0 <= j < q.len() ==> (#[trigger] q[j])->Some_0 <= q[sell_choice(q)]->Some_0,
        forall|j: int| sell_choice(q) < j < q.len() ==> (#[trigger] q[j])->Some_0 < q[sell_choice(q)]->Some_0,
    decreases q.len(),
{
    lemma_fold_choice_in_range(q, |a: Option<i64>, b: Option<i64>| sell_keeps(a, b));
    if q.len() > 1 {
        let d = q.drop_last();
        assert forall|j: int| 0 <= j < d.len() implies (#[trigger] d[j]) is Some by {
            assert(d[j] == q[j]);
        }
        lemma_sell_choice_is_highest(d);
        assert forall|j: int| 0 <= j < d.len() implies q[j] == #[trigger] d[j] by {}
        let h = sell_choice(d);
        let n = q.len() - 1;
        assert(q[h] == d[h]);
        assert(q.last() == q[n]);
        assert(q[n] is Some);
        assert(sell_choice(q) == (if sell_keeps(q[h], q[n]) { h } else { n }));
        let r = sell_choice(q);
        assert forall|j: int| 0 <= j < q.len() implies (#[trigger] q[j])->Some_0 <= q[r]->Some_0 by {
            if j < n {
                assert(d[j] == q[j]);
            }
        }
        assert forall|j: int| r < j < q.len() implies (#[trigger] q[j])->Some_0 < q[r]->Some_0 by {
            if j < n {
                assert(d[j] == q[j]);
            }
        }
    }
}

/// When every market quotes a price, the market chosen for buying quotes the lowest
/// price, and no earlier market quotes as little.
pub proof fn lemma_buy_choice_is_lowest(q: Seq<Option<i64>>)
    requires
        q.len() > 0,
        forall|j: int| 0 <= j < q.len() ==> (#[trigger] q[j]) is Some,
    ensures
        0 <= buy_choice(q) < q.len(),
        forall|j: int| 0 <= j < q.len() ==> q[buy_choice(q)]->Some_0 <= (#[trigger] q[j])->Some_0,
        forall|j: int| 0 <= j < buy_choice(q) ==> q[buy_choice(q)]->Some_0 < (#[trigger] q[j])->Some_0,
    decreases q.len(),
{
    lemma_fold_choice_in_range(q, |a: Option<i64>, b: Option<i64>| buy_keeps(a, b));
    if q.len() > 1 {
        let d = q.drop_last();
        assert forall|j: int| 0 <= j < d.len() implies (#[trigger] d[j]) is Some by {
            assert(d[j] == q[j]);
        }
        lemma_buy_choice_is_lowest(d);
        assert forall|j: int| 0 <= j < d.len() implies q[j] == #[trigger] d[j] by {}
        let h = buy_choice(d);
        let n = q.len() - 1;
        assert(q[h] == d[h]);
        assert(q.last() == q[n]);
        assert(q[n] is Some);
        assert(buy_choice(q) == (if buy_keeps(q[h], q[n]) { h } else { n }));
        let r = buy_choice(q);
        assert forall|j: int| 0 <= j < q.len() implies q[r]->Some_0 <= (#[trigger] q[j])->Some_0 by {
            if j < n {
                assert(d[j] == q[j]);
            }
        }
        assert forall|j: int| 0 <= j < r implies q[r]->Some_0 < (#[trigger] q[j])->Some_0 by {
            if j < n {
                assert(d[j] == q[j]);
            }
        }
    }
}

/// The label picked as a market's most stocked holds the largest quantity, and no
/// later label holds as much.
pub proof fn lemma_most_stocked_is_largest(labels: Seq<(GoodKind, i64, i64)>)
    requires
        labels.len() > 0,
    ensures
        0 <= most_stocked(labels) < labels.len(),
        forall|j: int| 0 <= j < labels.len() ==> (#[trigger] labels[j]).1 <= labels[most_stocked(labels)].1,
        forall|j: int| most_stocked(labels) < j < labels.len() ==> (#[trigger] labels[j]).1 < labels[most_stocked(labels)].1,
    decreases labels.len(),
{
    let q = label_quantities(labels);
    lemma_fold_choice_in_range(q, |a: i64, b: i64| last_max_keeps(a, b));
    if labels.len() > 1 {
        let d = labels.drop_last();
        lemma_most_stocked_is_largest(d);
        assert(label_quantities(d) =~= q.drop_last());
        assert forall|j: int| 0 <= j < d.len() implies labels[j] == #[trigger] d[j] by {}
        let h = most_stocked(d);
        let n = labels.len() - 1;
        assert(q[h] == labels[h].1);
        assert(q.last() == labels[n].1);
        assert(d[h] == labels[h]);
        assert(most_stocked(labels) == (if last_max_keeps(q[h], q[n]) { h } else { n }));
        let r = most_stocked(labels);
        assert forall|j: int| 0 <= j < labels.len() implies (#[trigger] labels[j]).1 <= labels[r].1 by {
            if j < n {
                assert(d[j] == labels[j]);
            }
        }
        assert forall|j: int| r < j < labels.len() implies (#[trigger] labels[j]).1 < labels[r].1 by {
            if j < n {
                assert(d[j] == labels[j]);
            }
        }
    }
}

/// Every candidate names a market of the list and a label of that market.
pub proof fn lemma_stock_candidates_in_range(markets: Seq<Vec<(GoodKind, i64, i64)>>)
    ensures
        forall|k: int| 0 <= k < stock_candidates(markets).len() ==> {
            &&& 0 <= (#[trigger] stock_candidates(markets)[k]).0 < markets.len()
            &&& 0 <= stock_candidates(markets)[k].1 < markets[stock_candidates(markets)[k].0]@.len()
        },
    decreases markets.len(),
{
    if markets.len() > 0 {
        let d = markets.drop_last();
        lemma_stock_candidates_in_range(d);
        let labels = markets.last()@;
        if labels.len() > 0 {
            lemma_fold_choice_in_range(label_quantities(labels), |a: i64, b: i64| last_max_keeps(a, b));
        }
        let c = stock_candidates(markets);
        let p = stock_candidates(d);
        assert forall|k: int| 0 <= k < c.len() implies {
            &&& 0 <= (#[trigger] c[k]).0 < markets.len()
            &&& 0 <= c[k].1 < markets[c[k].0]@.len()
        } by {
            if k < p.len() {
                assert(c[k] == p[k]);
                assert(markets[p[k].0] == d[p[k].0]);
            }
        }
    }
}

/// The best keys: no key holds more, no key with as much has a lower rate, and no
/// earlier key is as good.
pub proof fn lemma_best_keys(q: Seq<(i64, i64)>)
    requires
        q.len() > 0,
    ensures
        ({
            let r = fold_choice(q, |a: (i64, i64), b: (i64, i64)| best_keeps(a, b));
            &&& 0 <= r < q.len()
            &&& forall|j: int| 0 <= j < q.len() ==> best_keeps(q[r], #[trigger] q[j])
            &&& forall|j: int| 0 <= j < r ==> !best_keeps(#[trigger] q[j], q[r])
        }),
    decreases q.len(),
{
    lemma_fold_choice_in_range(q, |a: (i64, i64), b: (i64, i64)| best_keeps(a, b));
    if q.len() > 1 {
        let d = q.drop_last();
        lemma_best_keys(d);
        let h = fold_choice(d, |a: (i64, i64), b: (i64, i64)| best_keeps(a, b));
        let n = q.len() - 1;
        assert(q[h] == d[h]);
        assert(q.last() == q[n]);
        assert(fold_choice(q, |a: (i64, i64), b: (i64, i64)| best_keeps(a, b)) == (if best_keeps(q[h], q[n]) { h } else { n }));
        let r = fold_choice(q, |a: (i64, i64), b: (i64, i64)| best_keeps(a, b));
        assert forall|j: int| 0 <= j < q.len() implies best_keeps(q[r], #[trigger] q[j]) by {
            if j < n {
                assert(d[j] == q[j]);
            }
        }
        assert forall|j: int| 0 <= j < r implies !best_keeps(#[trigger] q[j], q[r]) by {
            if j < n {
                assert(d[j] == q[j]);
            }
        }
    }
}

/// Every candidate of the search for the best purchase names the most stocked label
/// of its market, and that label is not the euro; and every market whose most stocked
/// label is not the euro is a candidate.
pub proof fn lemma_stock_candidates_are_most_stocked(markets: Seq<Vec<(GoodKind, i64, i64)>>)
    ensures
        forall|k: int| 0 <= k < stock_candidates(markets).len() ==> {
            let c = #[trigger] stock_candidates(markets)[k];
            &&& 0 <= c.0 < markets.len()
            &&& markets[c.0]@.len() > 0
            &&& c.1 == most_stocked(markets[c.0]@)
            &&& markets[c.0]@[c.1].0 != GoodKind::EUR
        },
        forall|m: int| 0 <= m < markets.len() && (#[trigger] markets[m])@.len() > 0
            && markets[m]@[most_stocked(markets[m]@)].0 != GoodKind::EUR
            ==> stock_candidates(markets).contains((m, most_stocked(markets[m]@))),
    decreases markets.len(),
{
    if markets.len() > 0 {
        let d = markets.drop_last();
        lemma_stock_candidates_are_most_stocked(d);
        let c = stock_candidates(markets);
        let p = stock_candidates(d);
        let n = markets.len() - 1;
        assert forall|k: int| 0 <= k < c.len() implies {
            let x = #[trigger] c[k];
            &&& 0 <= x.0 < markets.len()
            &&& markets[x.0]@.len() > 0
            &&& x.1 == most_stocked(markets[x.0]@)
            &&& markets[x.0]@[x.1].0 != GoodKind::EUR
        } by {
            if k < p.len() {
                assert(c[k] == p[k]);
                assert(markets[p[k].0] == d[p[k].0]);
            }
        }
        assert forall|m: int| 0 <= m < markets.len() && (#[trigger] markets[m])@.len() > 0
            && markets[m]@[most_stocked(markets[m]@)].0 != GoodKind::EUR
            implies c.contains((m, most_stocked(markets[m]@))) by {
            if m < n {
                assert(d[m] == markets[m]);
                assert(p.contains((m, most_stocked(markets[m]@))));
                let k = choose|k: int| 0 <= k < p.len() && p[k] == (m, most_stocked(markets[m]@));
                assert(c[k] == p[k]);
            } else {
                assert(markets.last() == markets[m]);
                assert(c[p.len() as int] == (m, most_stocked(markets[m]@)));
            }
        }
    }
}

/// The purchase picked by the search is a candidate: the most stocked label of its
/// market, not the euro. No candidate holds more; no candidate holding as much has a
/// lower buying rate; no earlier candidate is as good. No purchase is picked exactly
/// when every market is empty or most stocked in euros.
pub proof fn lemma_best_candidate_is_most_available(markets: Seq<Vec<(GoodKind, i64, i64)>>)
    ensures
        best_candidate(markets) matches Some((m, l)) ==> {
            &&& 0 <= m < markets.len()
            &&& markets[m]@.len() > 0
            &&& l == most_stocked(markets[m]@)
            &&& markets[m]@[l].0 != GoodKind::EUR
            &&& forall|k: int| 0 <= k < stock_candidates(markets).len() ==> {
                let o = markets[(#[trigger] stock_candidates(markets)[k]).0]@[stock_candidates(markets)[k].1];
                &&& o.1 <= markets[m]@[l].1
                &&& o.1 == markets[m]@[l].1 ==> markets[m]@[l].2 <= o.2
            }
        },
        best_candidate(markets) is None <==> forall|m: int| 0 <= m < markets.len() ==>
            (#[trigger] markets[m])@.len() == 0 || markets[m]@[most_stocked(markets[m]@)].0 == GoodKind::EUR,
{
    lemma_stock_candidates_are_most_stocked(markets);
    let c = stock_candidates(markets);
    if c.len() > 0 {
        let q = candidate_keys(markets, c);
        lemma_best_keys(q);
        let r = fold_choice(q, |a: (i64, i64), b: (i64, i64)| best_keeps(a, b));
        assert(q[r] == (markets[c[r].0]@[c[r].1].1, markets[c[r].0]@[c[r].1].2));
        assert forall|k: int| 0 <= k < c.len() implies {
            let o = markets[(#[trigger] c[k]).0]@[c[k].1];
            &&& o.1 <= markets[c[r].0]@[c[r].1].1
            &&& o.1 == markets[c[r].0]@[c[r].1].1 ==> markets[c[r].0]@[c[r].1].2 <= o.2
        } by {
            assert(q[k] == (markets[c[k].0]@[c[k].1].1, markets[c[k].0]@[c[k].1].2));
            assert(best_keeps(q[r], q[k]));
        }
        let x = c[0];
        assert(markets[x.0]@.len() > 0 && markets[x.0]@[most_stocked(markets[x.0]@)].0 != GoodKind::EUR);
    } else {
        assert forall|m: int| 0 <= m < markets.len() implies
            (#[trigger] markets[m])@.len() == 0 || markets[m]@[most_stocked(markets[m]@)].0 == GoodKind::EUR by {
            if markets[m]@.len() > 0 && markets[m]@[most_stocked(markets[m]@)].0 != GoodKind::EUR {
                assert(c.contains((m, most_stocked(markets[m]@))));
            }
        }
    }
}

} // verus!
