use vstd::prelude::*;
use crate::common::goods::{EventKind, GoodKind};
use crate::common::selection::{
    buy_choice, choose_buy_market, choose_sell_market, best_candidate, pick_best_candidate, sell_choice,
};

verus! {

/// The views of a list of strings.
pub open spec fn string_views(v: Seq<String>) -> Seq<Seq<char>> {
    v.map_values(|s: String| s@)
}

/// The lock tokens that a trader holds, per currency. A currency whose list was
/// dropped by `clear` has no list any more, and tokens recorded for it are lost.
pub struct LockBook {
    usd: Option<Vec<String>>,
    yen: Option<Vec<String>>,
    yuan: Option<Vec<String>>,
}

impl LockBook {
    /// The tokens held for `k`, or `None` when the book has no list for `k`.
    pub closed spec fn tokens(&self, k: GoodKind) -> Option<Seq<Seq<char>>> {
        let list = match k {
            GoodKind::USD => self.usd,
            GoodKind::YEN => self.yen,
            GoodKind::YUAN => self.yuan,
            GoodKind::EUR => None,
        };
        match list {
            Some(v) => Some(string_views(v@)),
            None => None,
        }
    }

    /// A book with an empty list for each of the dollar, the yen and the yuan.
    pub fn new() -> (book: LockBook)
        ensures
            forall|k: GoodKind| k != GoodKind::EUR ==> #[trigger] book.tokens(k) == Some(Seq::<Seq<char>>::empty()),
            book.tokens(GoodKind::EUR) is None,
    {
        let book = LockBook { usd: Some(Vec::new()), yen: Some(Vec::new()), yuan: Some(Vec::new()) };
        proof {
            assert(string_views(Seq::<String>::empty()) =~= Seq::<Seq<char>>::empty());
        }
        book
    }

    /// How many tokens are held for `k`, or `None` when the book has no list for `k`.
    pub fn count(&self, k: GoodKind) -> (n: Option<usize>)
        ensures
            match (n, self.tokens(k)) {
                (None, None) => true,
                (Some(c), Some(t)) => c == t.len(),
                _ => false,
            },
    {
        let list = match k {
            GoodKind::USD => &self.usd,
            GoodKind::YEN => &self.yen,
            GoodKind::YUAN => &self.yuan,
            GoodKind::EUR => return None,
        };
        match list {
            Some(v) => Some(v.len()),
            None => None,
        }
    }

    /// Appends `token` to the list of `k`, when the book has one.
    pub fn record(&mut self, k: GoodKind, token: String)
        ensures
            forall|j: GoodKind| j != k ==> #[trigger] final(self).tokens(j) == old(self).tokens(j),
            match old(self).tokens(k) {
                Some(t) => final(self).tokens(k) == Some(t.push(token@)),
                None => final(self).tokens(k) is None,
            },
    {
        let list = match k {
            GoodKind::USD => &mut self.usd,
            GoodKind::YEN => &mut self.yen,
            GoodKind::YUAN => &mut self.yuan,
            GoodKind::EUR => return,
        };
        match list {
            Some(v) => {
                let ghost old_v = v@;
                v.push(token);
                proof {
                    assert(string_views(v@) =~= string_views(old_v).push(token@));
                }
            },
            None => {},
        }
    }

    /// Drops every list: the book then holds no list for any currency.
    pub fn clear(&mut self)
        ensures
            forall|k: GoodKind| #[trigger] final(self).tokens(k) is None,
    {
        self.usd = None;
        self.yen = None;
        self.yuan = None;
    }
}

/// The names of a list, each kept at its first occurrence.
pub open spec fn first_occurrences(s: Seq<Seq<char>>) -> Seq<Seq<char>>
    decreases s.len(),
{
    if s.len() == 0 {
        Seq::empty()
    } else {
        let d = first_occurrences(s.drop_last());
        if d.contains(s.last()) {
            d
        } else {
            d.push(s.last())
        }
    }
}

pub proof fn lemma_first_occurrences(s: Seq<Seq<char>>)
    ensures
        first_occurrences(s).no_duplicates(),
        forall|x: Seq<char>| #[trigger] first_occurrences(s).contains(x) <==> s.contains(x),
    decreases s.len(),
{
    if s.len() > 0 {
        let d = s.drop_last();
        lemma_first_occurrences(d);
        let f = first_occurrences(d);
        let fs = first_occurrences(s);
        let last = s.last();
        assert(fs == if f.contains(last) { f } else { f.push(last) });
        assert forall|x: Seq<char>| #[trigger] fs.contains(x) <==> s.contains(x) by {
            if f.contains(x) {
                let k = choose|k: int| 0 <= k < f.len() && f[k] == x;
                assert(fs[k] == x);
                assert(d.contains(x));
                let i = choose|i: int| 0 <= i < d.len() && d[i] == x;
                assert(s[i] == x);
            } else {
                if s.contains(x) {
                    let i = choose|i: int| 0 <= i < s.len() && s[i] == x;
                    if i < s.len() - 1 {
                        assert(d[i] == x);
                    }
                    assert(x == last);
                    assert(fs[f.len() as int] == x);
                }
                if fs.contains(x) {
                    let k = choose|k: int| 0 <= k < fs.len() && fs[k] == x;
                    if k < f.len() {
                        assert(f[k] == x);
                    }
                    assert(x == last);
                    assert(s[s.len() - 1] == x);
                }
            }
        }
    }
}

/// Whether the trader pays a market with the agreed price rather than with the
/// agreed quantity when it buys with a lock: only at the market named "ZSE".
pub fn pays_with_price(market_name: &String) -> (b: bool)
    ensures
        b <==> market_name@ == "ZSE"@,
{
    *market_name == String::from_str("ZSE")
}

/// How a sale that the trader attempted ended.
#[derive(Clone, Copy, Debug, PartialEq, Eq, Structural)]
pub enum SellOutcome {
    /// The market took the goods and paid.
    Sold,
    /// The market granted the lock, then refused the sale.
    SellFailed,
    /// The market refused the lock because it holds too little of its default good to pay.
    LockRefusedForDefaultGood,
    /// The market refused the lock for another reason.
    LockRefused,
}

/// How a purchase that the trader attempted ended.
#[derive(Clone, Copy, Debug, PartialEq, Eq, Structural)]
pub enum BuyOutcome {
    /// The market delivered the goods.
    Bought,
    /// The market granted the lock, then refused the purchase for holding too little of the good.
    BuyFailedForQuantity,
    /// The market granted the lock, then refused the purchase for another reason.
    BuyFailed,
    /// The market refused the lock because the trader holds as many locks as it allows.
    LockRefusedForMaxLocks,
    /// The market refused the lock for another reason.
    LockRefused,
}

/// Where the trader looked for the good it tries to buy.
#[derive(Clone, Copy, Debug, PartialEq, Eq, Structural)]
pub enum BuySource {
    /// The best stocked good over all markets, after no lock or a failed one.
    Best,
    /// The kind that the trader has just sold, from the cheapest market.
    SoldKind,
}

/// What the trader does in one step of its trading loop.
#[derive(Clone, Copy, Debug, PartialEq, Eq, Structural)]
pub enum Plan {
    /// No market is left to trade with: trading ends.
    Stop,
    /// Sell the given kind at the market that pays the most for it.
    Sell(GoodKind),
    /// Buy the given kind, just sold, at the market that asks the least for it.
    BuyKind(GoodKind),
    /// Buy the good that the search for the best purchase picks.
    BuyBest,
}

/// What the trader does next, given how many markets it still trades with, how many
/// rounds it has left, and the last lock it concluded: nothing once no market or no
/// round is left; otherwise it sells a kind just bought, buys again a kind just sold,
/// and else searches for the best purchase.
pub open spec fn plan_for(market_count: nat, rounds_left: int, last_lock: Option<(EventKind, GoodKind)>) -> Plan {
    if market_count == 0 || rounds_left <= 0 {
        Plan::Stop
    } else {
        match last_lock {
            Some((EventKind::Bought, k)) => Plan::Sell(k),
            Some((EventKind::Sold, k)) => Plan::BuyKind(k),
            _ => Plan::BuyBest,
        }
    }
}

/// The last lock after an attempt to sell `k`: after a sale, the trader goes on to
/// buy `k` again; after any failure it searches for a fresh purchase.
pub open spec fn next_after_sell(k: GoodKind, outcome: SellOutcome) -> Option<(EventKind, GoodKind)> {
    match outcome {
        SellOutcome::Sold => Some((EventKind::Sold, k)),
        _ => None,
    }
}

/// The last lock after an attempt to buy `k`. After a fresh search: a purchase, or a
/// refusal for the market's quantity, leads to selling `k`; a refusal of the lock for
/// the limit of locks leads to buying `k` again without that market; any other
/// failure to a fresh search. After buying again a kind just sold, the trader always
/// goes on with a fresh search.
pub open spec fn next_after_buy(k: GoodKind, source: BuySource, outcome: BuyOutcome) -> Option<(EventKind, GoodKind)> {
    match source {
        BuySource::Best => match outcome {
            BuyOutcome::Bought => Some((EventKind::Bought, k)),
            BuyOutcome::BuyFailedForQuantity => Some((EventKind::Bought, k)),
            BuyOutcome::LockRefusedForMaxLocks => Some((EventKind::Sold, k)),
            _ => None,
        },
        BuySource::SoldKind => None,
    }
}

/// `after` is `before` without `name`.
pub open spec fn without_market(before: Seq<Seq<char>>, after: Seq<Seq<char>>, name: Seq<char>) -> bool {
    &&& forall|m: Seq<char>| #[trigger] after.contains(m) <==> before.contains(m) && m != name
    &&& after.len() == (if before.contains(name) { before.len() - 1 } else { before.len() as int })
}

/// Trading ends once no market is left, or once every round has been traded,
/// whatever lock came last.
pub proof fn lemma_trading_ends_without_markets_or_rounds(market_count: nat, rounds_left: int, last_lock: Option<(EventKind, GoodKind)>)
    ensures
        plan_for(0, rounds_left, last_lock) == Plan::Stop,
        plan_for(market_count, 0, last_lock) == Plan::Stop,
{
}

/// A market that is dropped is no longer traded with, and the trader is left with
/// one market less.
pub proof fn lemma_dropped_market_is_gone(before: Seq<Seq<char>>, after: Seq<Seq<char>>, name: Seq<char>)
    requires
        without_market(before, after, name),
        before.contains(name),
    ensures
        !after.contains(name),
        after.len() == before.len() - 1,
{
}

/// The round trip of the trader, while it has markets and rounds left: a purchase found by the
/// search, or one refused for the market's quantity, is followed by selling that
/// kind; a sale by buying the same kind again; a lock refused for the limit of locks
/// by buying the same kind again elsewhere; any other failure by a fresh search.
pub proof fn lemma_round_trip(market_count: nat, rounds_left: int, k: GoodKind)
    requires
        market_count > 0,
        rounds_left > 0,
    ensures
        plan_for(market_count, rounds_left, next_after_buy(k, BuySource::Best, BuyOutcome::Bought)) == Plan::Sell(k),
        plan_for(market_count, rounds_left, next_after_buy(k, BuySource::Best, BuyOutcome::BuyFailedForQuantity)) == Plan::Sell(k),
        plan_for(market_count, rounds_left, next_after_sell(k, SellOutcome::Sold)) == Plan::BuyKind(k),
        plan_for(market_count, rounds_left, next_after_buy(k, BuySource::Best, BuyOutcome::LockRefusedForMaxLocks)) == Plan::BuyKind(k),
        plan_for(market_count, rounds_left, next_after_buy(k, BuySource::Best, BuyOutcome::BuyFailed)) == Plan::BuyBest,
        plan_for(market_count, rounds_left, next_after_buy(k, BuySource::Best, BuyOutcome::LockRefused)) == Plan::BuyBest,
        forall|o: BuyOutcome| plan_for(market_count, rounds_left, #[trigger] next_after_buy(k, BuySource::SoldKind, o)) == Plan::BuyBest,
        forall|o: SellOutcome| o != SellOutcome::Sold ==> plan_for(market_count, rounds_left, #[trigger] next_after_sell(k, o)) == Plan::BuyBest,
{
}

/// A trader plans a round only while it has rounds left, so it never trades more
/// than the number of rounds it was made for: each round ends with `after_sell` or
/// `after_buy`, which count it and require a round to be left.
pub proof fn lemma_rounds_bounded(t: Trader, last_lock: Option<(EventKind, GoodKind)>)
    requires
        t.wf(),
    ensures
        t.rounds_view() <= t.ttl_view(),
        plan_for(t.market_names().len(), t.ttl_view() - t.rounds_view(), last_lock) != Plan::Stop
            ==> t.rounds_view() < t.ttl_view(),
{
}

/// The state of the trader that does not depend on amounts of money: its name, how
/// many rounds it trades for and has traded, the names of the markets it still
/// trades with, and the tokens of the locks it holds for selling and for buying.
pub struct Trader {
    name: String,
    ttl: u32,
    rounds: u32,
    markets: Vec<String>,
    lock_sells: LockBook,
    lock_purchases: LockBook,
}

impl Trader {
    pub closed spec fn name_view(&self) -> Seq<char> {
        self.name@
    }

    pub closed spec fn ttl_view(&self) -> u32 {
        self.ttl
    }

    /// How many rounds the trader has traded.
    pub closed spec fn rounds_view(&self) -> u32 {
        self.rounds
    }

    /// The names of the markets the trader still trades with, in the order in which
    /// it asks them for quotes.
    pub closed spec fn market_names(&self) -> Seq<Seq<char>> {
        string_views(self.markets@)
    }

    /// The tokens of the locks held for selling `k`.
    pub closed spec fn sell_locks(&self, k: GoodKind) -> Option<Seq<Seq<char>>> {
        self.lock_sells.tokens(k)
    }

    /// The tokens of the locks held for buying `k`.
    pub closed spec fn purchase_locks(&self, k: GoodKind) -> Option<Seq<Seq<char>>> {
        self.lock_purchases.tokens(k)
    }

    /// No market is listed twice, and the trader has traded no more rounds than it
    /// trades for.
    pub open spec fn wf(&self) -> bool {
        &&& self.market_names().no_duplicates()
        &&& self.rounds_view() <= self.ttl_view()
    }

    /// A trader named `name` that trades for `ttl` steps with the markets named in
    /// `market_names` (a name given twice is listed once), holding an empty list of
    /// lock tokens for selling and one for buying each of the dollar, the yen and the
    /// yuan.
    pub fn new(name: String, ttl: u32, market_names: &Vec<String>) -> (t: Self)
        ensures
            t.wf(),
            t.name_view() == name@,
            t.ttl_view() == ttl,
            t.rounds_view() == 0,
            t.market_names() == first_occurrences(string_views(market_names@)),
            forall|k: GoodKind| k != GoodKind::EUR ==> #[trigger] t.sell_locks(k) == Some(Seq::<Seq<char>>::empty()),
            forall|k: GoodKind| k != GoodKind::EUR ==> #[trigger] t.purchase_locks(k) == Some(Seq::<Seq<char>>::empty()),
            t.sell_locks(GoodKind::EUR) is None,
            t.purchase_locks(GoodKind::EUR) is None,
    {
        let ghost input = string_views(market_names@);
        let mut markets: Vec<String> = Vec::new();
        let mut i: usize = 0;
        while i < market_names.len()
            invariant
                i <= market_names.len(),
                input == string_views(market_names@),
                string_views(markets@) == first_occurrences(input.take(i as int)),
            decreases market_names.len() - i,
        {
            proof {
                assert(input.take(i + 1).drop_last() =~= input.take(i as int));
                assert(input.take(i + 1).last() == market_names@[i as int]@);
            }
            let mut found = false;
            let mut j: usize = 0;
            while j < markets.len()
                invariant
                    j <= markets.len(),
                    i < market_names.len(),
                    found <==> exists|a: int| 0 <= a < j && markets@[a]@ == market_names@[i as int]@,
                decreases markets.len() - j,
            {
                if markets[j] == market_names[i] {
                    found = true;
                }
                j = j + 1;
            }
            proof {
                let views = string_views(markets@);
                if found {
                    let a = choose|a: int| 0 <= a < j && markets@[a]@ == market_names@[i as int]@;
                    assert(views[a] == market_names@[i as int]@);
                    assert(views.contains(market_names@[i as int]@));
                } else {
                    assert forall|a: int| 0 <= a < views.len() implies views[a] != market_names@[i as int]@ by {}
                }
            }
            if !found {
                let ghost before = markets@;
                markets.push(market_names[i].clone());
                proof {
                    assert(string_views(markets@) =~= string_views(before).push(market_names@[i as int]@));
                }
            }
            i = i + 1;
        }
        proof {
            assert(input.take(market_names.len() as int) =~= input);
            lemma_first_occurrences(input);
        }
        Trader { name, ttl, rounds: 0, markets, lock_sells: LockBook::new(), lock_purchases: LockBook::new() }
    }

    /// The trader's name, which it gives the markets with each lock.
    pub fn name(&self) -> (n: &String)
        ensures
            n@ == self.name_view(),
    {
        &self.name
    }

    /// How many rounds the trader has traded.
    pub fn rounds(&self) -> (n: u32)
        ensures
            n == self.rounds_view(),
    {
        self.rounds
    }

    /// How many rounds the trader trades for.
    pub fn ttl(&self) -> (n: u32)
        ensures
            n == self.ttl_view(),
    {
        self.ttl
    }

    /// The names of the markets the trader still trades with, in the order in which
    /// it asks them for quotes.
    pub fn markets(&self) -> (m: &Vec<String>)
        ensures
            string_views(m@) == self.market_names(),
    {
        &self.markets
    }

    /// The market to sell to, given in `quotes` what each market, in the order of
    /// `markets`, offers for one unit (`None` for a market that answered with an
    /// error): the last of the highest offers when every market offers; `None` when
    /// the trader has no market left.
    pub fn best_sell(&self, quotes: &Vec<Option<i64>>) -> (res: Option<String>)
        requires
            quotes@.len() == self.market_names().len(),
        ensures
            res is None <==> self.market_names().len() == 0,
            res matches Some(m) ==> m@ == self.market_names()[sell_choice(quotes@)],
    {
        match choose_sell_market(quotes) {
            Some(i) => {
                proof {
                    crate::common::selection::lemma_fold_choice_in_range(
                        quotes@,
                        |a: Option<i64>, b: Option<i64>| crate::common::selection::sell_keeps(a, b),
                    );
                    assert(self.market_names()[i as int] == self.markets@[i as int]@);
                }
                Some(self.markets[i].clone())
            },
            None => None,
        }
    }

    /// The market to buy from, given in `quotes` what each market, in the order of
    /// `markets`, asks for one unit (`None` for a market that answered with an
    /// error): the first of the lowest asks when every market asks; `None` when the
    /// trader has no market left.
    pub fn best_buy(&self, quotes: &Vec<Option<i64>>) -> (res: Option<String>)
        requires
            quotes@.len() == self.market_names().len(),
        ensures
            res is None <==> self.market_names().len() == 0,
            res matches Some(m) ==> m@ == self.market_names()[buy_choice(quotes@)],
    {
        match choose_buy_market(quotes) {
            Some(i) => {
                proof {
                    crate::common::selection::lemma_fold_choice_in_range(
                        quotes@,
                        |a: Option<i64>, b: Option<i64>| crate::common::selection::buy_keeps(a, b),
                    );
                    assert(self.market_names()[i as int] == self.markets@[i as int]@);
                }
                Some(self.markets[i].clone())
            },
            None => None,
        }
    }

    /// The purchase that the search for the best one picks, given in `labels` the
    /// labels of each market, in the order of `markets`, as a currency, a key of the
    /// quantity the market holds and a key of the rate at which it sells: in each
    /// market the label holding the most, unless it is the euro; of those, the one
    /// holding the most, at the lowest rate among equal quantities, the first of
    /// equal ones. The result names the market and the position of the label in its
    /// list.
    pub fn get_best_buy(&self, labels: &Vec<Vec<(GoodKind, i64, i64)>>) -> (res: Option<(String, usize)>)
        requires
            labels@.len() == self.market_names().len(),
        ensures
            match (res, best_candidate(labels@)) {
                (None, None) => true,
                (Some((m, l)), Some((sm, sl))) => m@ == self.market_names()[sm] && l == sl,
                _ => false,
            },
    {
        match pick_best_candidate(labels) {
            Some((m, l)) => {
                proof {
                    crate::common::selection::lemma_stock_candidates_in_range(labels@);
                    let c = crate::common::selection::stock_candidates(labels@);
                    crate::common::selection::lemma_fold_choice_in_range(
                        crate::common::selection::candidate_keys(labels@, c),
                        |a: (i64, i64), b: (i64, i64)| crate::common::selection::best_keeps(a, b),
                    );
                    assert(self.market_names()[m as int] == self.markets@[m as int]@);
                }
                Some((self.markets[m].clone(), l))
            },
            None => None,
        }
    }

    /// How many locks for selling `k` the trader holds, or `None` when it keeps no
    /// list for `k`.
    pub fn sell_lock_count(&self, k: GoodKind) -> (n: Option<usize>)
        ensures
            match (n, self.sell_locks(k)) {
                (None, None) => true,
                (Some(c), Some(t)) => c == t.len(),
                _ => false,
            },
    {
        self.lock_sells.count(k)
    }

    /// How many locks for buying `k` the trader holds, or `None` when it keeps no
    /// list for `k`.
    pub fn purchase_lock_count(&self, k: GoodKind) -> (n: Option<usize>)
        ensures
            match (n, self.purchase_locks(k)) {
                (None, None) => true,
                (Some(c), Some(t)) => c == t.len(),
                _ => false,
            },
    {
        self.lock_purchases.count(k)
    }

    /// Records the token of a lock for selling `k` that a market granted: it is
    /// appended to the list of `k`, when the trader keeps one.
    pub fn lock_sell(&mut self, k: GoodKind, token: String)
        ensures
            final(self).name_view() == old(self).name_view(),
            final(self).ttl_view() == old(self).ttl_view(),
            final(self).rounds_view() == old(self).rounds_view(),
            final(self).market_names() == old(self).market_names(),
            forall|j: GoodKind| #[trigger] final(self).purchase_locks(j) == old(self).purchase_locks(j),
            forall|j: GoodKind| j != k ==> #[trigger] final(self).sell_locks(j) == old(self).sell_locks(j),
            match old(self).sell_locks(k) {
                Some(t) => final(self).sell_locks(k) == Some(t.push(token@)),
                None => final(self).sell_locks(k) is None,
            },
    {
        self.lock_sells.record(k, token);
    }

    /// Records the token of a lock for buying `k` that a market granted: it is
    /// appended to the list of `k`, when the trader keeps one.
    pub fn lock_buy(&mut self, k: GoodKind, token: String)
        ensures
            final(self).name_view() == old(self).name_view(),
            final(self).ttl_view() == old(self).ttl_view(),
            final(self).rounds_view() == old(self).rounds_view(),
            final(self).market_names() == old(self).market_names(),
            forall|j: GoodKind| #[trigger] final(self).sell_locks(j) == old(self).sell_locks(j),
            forall|j: GoodKind| j != k ==> #[trigger] final(self).purchase_locks(j) == old(self).purchase_locks(j),
            match old(self).purchase_locks(k) {
                Some(t) => final(self).purchase_locks(k) == Some(t.push(token@)),
                None => final(self).purchase_locks(k) is None,
            },
    {
        self.lock_purchases.record(k, token);
    }

    /// What the trader does in its next step, given the last lock it concluded.
    pub fn plan(&self, last_lock: Option<(EventKind, GoodKind)>) -> (p: Plan)
        ensures
            p == plan_for(self.market_names().len(), self.ttl_view() - self.rounds_view(), last_lock),
    {
        if self.markets.len() == 0 || self.rounds >= self.ttl {
            Plan::Stop
        } else {
            match last_lock {
                Some((EventKind::Bought, k)) => Plan::Sell(k),
                Some((EventKind::Sold, k)) => Plan::BuyKind(k),
                _ => Plan::BuyBest,
            }
        }
    }

    /// Stops trading with the market named `name`.
    fn remove_market(&mut self, name: &String)
        requires
            old(self).wf(),
        ensures
            final(self).wf(),
            without_market(old(self).market_names(), final(self).market_names(), name@),
            final(self).name_view() == old(self).name_view(),
            final(self).ttl_view() == old(self).ttl_view(),
            final(self).rounds_view() == old(self).rounds_view(),
            forall|j: GoodKind| #[trigger] final(self).sell_locks(j) == old(self).sell_locks(j),
            forall|j: GoodKind| #[trigger] final(self).purchase_locks(j) == old(self).purchase_locks(j),
    {
        let ghost before = self.market_names();
        let mut i: usize = 0;
        while i < self.markets.len() && self.markets[i] != *name
            invariant
                i <= self.markets@.len(),
                before == string_views(self.markets@),
                forall|a: int| 0 <= a < i ==> before[a] != name@,
            decreases self.markets@.len() - i,
        {
            i = i + 1;
        }
        if i < self.markets.len() {
            self.markets.remove(i);
            proof {
                let after = self.market_names();
                assert(after =~= before.remove(i as int));
                assert(before[i as int] == name@);
                assert forall|m: Seq<char>| #[trigger] after.contains(m) <==> before.contains(m) && m != name@ by {
                    if after.contains(m) {
                        let a = choose|a: int| 0 <= a < after.len() && after[a] == m;
                        if a < i {
                            assert(before[a] == m);
                        } else {
                            assert(before[a + 1] == m);
                        }
                    }
                    if before.contains(m) && m != name@ {
                        let a = choose|a: int| 0 <= a < before.len() && before[a] == m;
                        if a < i {
                            assert(after[a] == m);
                        } else {
                            assert(a != i);
                            assert(after[a - 1] == m);
                        }
                    }
                }
                assert(before.contains(name@));
                assert forall|a: int, b: int| 0 <= a < b < after.len() implies after[a] != after[b] by {
                    let a2 = if a < i { a } else { a + 1 };
                    let b2 = if b < i { b } else { b + 1 };
                    assert(after[a] == before[a2]);
                    assert(after[b] == before[b2]);
                }
            }
        } else {
            proof {
                assert forall|a: int| 0 <= a < before.len() implies before[a] != name@ by {}
            }
        }
    }

    /// Ends a round in which the trader tried to sell `k` at the market named
    /// `market`, and gives the last lock it goes on from. After a sale the trader drops its
    /// lists of locks for buying; after a refusal of the lock because the market holds
    /// too little of its default good, it stops trading with that market.
    pub fn after_sell(&mut self, k: GoodKind, market: &String, outcome: SellOutcome) -> (next: Option<(EventKind, GoodKind)>)
        requires
            old(self).wf(),
            old(self).rounds_view() < old(self).ttl_view(),
        ensures
            final(self).wf(),
            next == next_after_sell(k, outcome),
            final(self).name_view() == old(self).name_view(),
            final(self).ttl_view() == old(self).ttl_view(),
            final(self).rounds_view() == old(self).rounds_view() + 1,
            forall|j: GoodKind| #[trigger] final(self).sell_locks(j) == old(self).sell_locks(j),
            outcome == SellOutcome::LockRefusedForDefaultGood
                ==> without_market(old(self).market_names(), final(self).market_names(), market@),
            outcome != SellOutcome::LockRefusedForDefaultGood
                ==> final(self).market_names() == old(self).market_names(),
            outcome == SellOutcome::Sold ==> forall|j: GoodKind| #[trigger] final(self).purchase_locks(j) is None,
            outcome != SellOutcome::Sold
                ==> forall|j: GoodKind| #[trigger] final(self).purchase_locks(j) == old(self).purchase_locks(j),
    {
        self.rounds = self.rounds + 1;
        match outcome {
            SellOutcome::Sold => {
                self.lock_purchases.clear();
                Some((EventKind::Sold, k))
            },
            SellOutcome::LockRefusedForDefaultGood => {
                self.remove_market(market);
                None
            },
            _ => None,
        }
    }

    /// Ends a round in which the trader tried to buy `k` at the market named
    /// `market`, having looked for it as `source` says, and gives the last lock it goes on
    /// from. After a purchase the trader drops its lists of locks for selling; after
    /// a refusal of the lock for the limit of locks, it stops trading with that
    /// market.
    pub fn after_buy(&mut self, k: GoodKind, market: &String, source: BuySource, outcome: BuyOutcome) -> (next: Option<(EventKind, GoodKind)>)
        requires
            old(self).wf(),
            old(self).rounds_view() < old(self).ttl_view(),
        ensures
            final(self).wf(),
            next == next_after_buy(k, source, outcome),
            final(self).name_view() == old(self).name_view(),
            final(self).ttl_view() == old(self).ttl_view(),
            final(self).rounds_view() == old(self).rounds_view() + 1,
            forall|j: GoodKind| #[trigger] final(self).purchase_locks(j) == old(self).purchase_locks(j),
            outcome == BuyOutcome::LockRefusedForMaxLocks
                ==> without_market(old(self).market_names(), final(self).market_names(), market@),
            outcome != BuyOutcome::LockRefusedForMaxLocks
                ==> final(self).market_names() == old(self).market_names(),
            outcome == BuyOutcome::Bought ==> forall|j: GoodKind| #[trigger] final(self).sell_locks(j) is None,
            outcome != BuyOutcome::Bought
                ==> forall|j: GoodKind| #[trigger] final(self).sell_locks(j) == old(self).sell_locks(j),
    {
        self.rounds = self.rounds + 1;
        if outcome == BuyOutcome::Bought {
            self.lock_sells.clear();
        }
        if outcome == BuyOutcome::LockRefusedForMaxLocks {
            self.remove_market(market);
        }
        match source {
            BuySource::Best => match outcome {
                BuyOutcome::Bought => Some((EventKind::Bought, k)),
                BuyOutcome::BuyFailedForQuantity => Some((EventKind::Bought, k)),
                BuyOutcome::LockRefusedForMaxLocks => Some((EventKind::Sold, k)),
                _ => None,
            },
            BuySource::SoldKind => None,
        }
    }
}

} // verus!
