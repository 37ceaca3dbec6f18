//! The event loader: of each event table, the rows that the ledger does not
//! hold yet, in the order of the chain.

use crate::engine::ledger_contains;
use crate::events::Cancel;
use crate::events::CancelView;
use crate::events::ChangeSize;
use crate::events::ChangeSizeView;
use crate::events::EventKey;
use crate::events::Fill;
use crate::events::FillView;
use crate::events::KeyView;
use crate::events::MarketRegistration;
use crate::events::MarketRegistrationView;
use crate::events::PlaceLimit;
use crate::events::PlaceLimitView;
use crate::events::PlaceMarket;
use crate::events::PlaceMarketView;
use crate::events::PlaceSwap;
use crate::events::PlaceSwapView;
use crate::events::cancel_views;
use crate::events::change_views;
use crate::events::fill_views;
use crate::events::key_before;
use crate::events::key_views;
use crate::events::place_limit_views;
use crate::events::place_market_views;
use crate::events::place_swap_views;
use crate::events::registration_views;
use crate::model::ledger_has;
use crate::pass::Batches;
use crate::pass::BatchesView;
use crate::sequencer::change_keys;
use crate::sequencer::fill_keys;
use vstd::prelude::*;

verus! {

/// An event of one of the tables: it has a position in the chain, and it can
/// be copied out of its table.
pub trait Logged: Sized {
    spec fn position(&self) -> KeyView;

    /// Whether two events say the same.
    spec fn same_event(&self, other: &Self) -> bool;

    fn key(&self) -> (k: &EventKey)
        ensures
            k@ == self.position(),
    ;

    fn duplicate(&self) -> (r: Self)
        ensures
            self.same_event(&r),
    ;
}

impl Logged for PlaceLimit {
    open spec fn position(&self) -> KeyView {
        self.key@
    }

    open spec fn same_event(&self, other: &Self) -> bool {
        self@ == other@
    }

    fn key(&self) -> (k: &EventKey) {
        &self.key
    }

    fn duplicate(&self) -> (r: Self) {
        self.clone()
    }
}

impl Logged for PlaceMarket {
    open spec fn position(&self) -> KeyView {
        self.key@
    }

    open spec fn same_event(&self, other: &Self) -> bool {
        self@ == other@
    }

    fn key(&self) -> (k: &EventKey) {
        &self.key
    }

    fn duplicate(&self) -> (r: Self) {
        self.clone()
    }
}

impl Logged for PlaceSwap {
    open spec fn position(&self) -> KeyView {
        self.key@
    }

    open spec fn same_event(&self, other: &Self) -> bool {
        self@ == other@
    }

    fn key(&self) -> (k: &EventKey) {
        &self.key
    }

    fn duplicate(&self) -> (r: Self) {
        self.clone()
    }
}

impl Logged for Fill {
    open spec fn position(&self) -> KeyView {
        self.key@
    }

    open spec fn same_event(&self, other: &Self) -> bool {
        self@ == other@
    }

    fn key(&self) -> (k: &EventKey) {
        &self.key
    }

    fn duplicate(&self) -> (r: Self) {
        self.clone()
    }
}

impl Logged for ChangeSize {
    open spec fn position(&self) -> KeyView {
        self.key@
    }

    open spec fn same_event(&self, other: &Self) -> bool {
        self@ == other@
    }

    fn key(&self) -> (k: &EventKey) {
        &self.key
    }

    fn duplicate(&self) -> (r: Self) {
        self.clone()
    }
}

impl Logged for Cancel {
    open spec fn position(&self) -> KeyView {
        self.key@
    }

    open spec fn same_event(&self, other: &Self) -> bool {
        self@ == other@
    }

    fn key(&self) -> (k: &EventKey) {
        &self.key
    }

    fn duplicate(&self) -> (r: Self) {
        self.clone()
    }
}

/// The positions of a table's events, row by row.
pub open spec fn positions<E: Logged>(table: Seq<E>) -> Seq<KeyView> {
    table.map_values(|event: E| event.position())
}

/// Where in `order` a row with position `key` goes: before the first row from
/// `from` on that stands strictly later in the chain, and so behind every row
/// that stands at the same position.
pub open spec fn place_for(order: Seq<int>, keys: Seq<KeyView>, key: KeyView, from: int) -> int
    decreases order.len() - from,
{
    if from < 0 || from >= order.len() {
        order.len() as int
    } else if key_before(key, keys[order[from]]) {
        from
    } else {
        place_for(order, keys, key, from + 1)
    }
}

/// The rows among the first `n` of a table that the ledger does not hold, in
/// the order of the chain. Each entry is a row's place in the table.
pub open spec fn load_order_upto(keys: Seq<KeyView>, ledger: Seq<KeyView>, n: int) -> Seq<int>
    decreases n,
{
    if n <= 0 {
        Seq::empty()
    } else {
        let earlier = load_order_upto(keys, ledger, n - 1);
        if ledger_has(ledger, keys[n - 1]) {
            earlier
        } else {
            earlier.insert(place_for(earlier, keys, keys[n - 1], 0), n - 1)
        }
    }
}

/// The rows of a table that the ledger does not hold, in the order of the
/// chain.
pub open spec fn load_order_of(keys: Seq<KeyView>, ledger: Seq<KeyView>) -> Seq<int> {
    load_order_upto(keys, ledger, keys.len() as int)
}

/// The rows of `table` at the places that `order` lists.
pub open spec fn picked<V>(table: Seq<V>, order: Seq<int>) -> Seq<V> {
    Seq::new(order.len(), |k: int| table[order[k]])
}

/// Places in a table as mathematical integers.
pub open spec fn places(order: Seq<usize>) -> Seq<int> {
    order.map_values(|at: usize| at as int)
}

/// Lists the places of the rows that the ledger does not hold, in the order
/// of the chain.
pub fn load_order<E: Logged>(table: &Vec<E>, ledger: &Vec<EventKey>) -> (r: Vec<usize>)
    ensures
        places(r@) == load_order_of(positions(table@), key_views(ledger@)),
        forall|k: int| 0 <= k < r.len() ==> (#[trigger] r[k]) < table.len(),
{
    let ghost keys = positions(table@);
    let ghost done = key_views(ledger@);
    let mut order: Vec<usize> = Vec::new();
    let mut n: usize = 0;
    while n < table.len()
        invariant
            n <= table.len(),
            keys == positions(table@),
            done == key_views(ledger@),
            places(order@) == load_order_upto(keys, done, n as int),
            forall|k: int| 0 <= k < order.len() ==> (#[trigger] order[k]) < n,
        decreases table.len() - n,
    {
        let key = table[n].key();
        if !ledger_contains(ledger, key) {
            let mut at: usize = 0;
            while at < order.len() && !key.precedes(table[order[at]].key())
                invariant
                    at <= order.len(),
                    n < table.len(),
                    keys == positions(table@),
                    key@ == keys[n as int],
                    forall|k: int| 0 <= k < order.len() ==> (#[trigger] order[k]) < n,
                    place_for(places(order@), keys, key@, 0) == place_for(
                        places(order@),
                        keys,
                        key@,
                        at as int,
                    ),
                decreases order.len() - at,
            {
                at += 1;
            }
            let ghost before = order@;
            order.insert(at, n);
            assert(places(order@) =~= places(before).insert(at as int, n as int));
            assert forall|k: int| 0 <= k < order.len() implies (#[trigger] order[k]) < n + 1 by {
                if k < at {
                    assert(order[k] == before[k]);
                } else if k > at {
                    assert(order[k] == before[k - 1]);
                }
            }
        }
        n += 1;
    }
    order
}

/// Copies out of `table` the rows at the places that `order` lists.
fn pick_events<E: Logged>(table: &Vec<E>, order: &Vec<usize>) -> (r: Vec<E>)
    requires
        forall|k: int| 0 <= k < order.len() ==> (#[trigger] order[k]) < table.len(),
    ensures
        r.len() == order.len(),
        forall|k: int|
            0 <= k < order.len() ==> table@[order@[k] as int].same_event(&#[trigger] r@[k]),
{
    let mut events: Vec<E> = Vec::new();
    let mut k: usize = 0;
    while k < order.len()
        invariant
            k <= order.len(),
            events.len() == k,
            forall|j: int| 0 <= j < order.len() ==> (#[trigger] order[j]) < table.len(),
            forall|j: int|
                0 <= j < k ==> table@[order@[j] as int].same_event(&#[trigger] events@[j]),
        decreases order.len() - k,
    {
        events.push(table[order[k]].duplicate());
        k += 1;
    }
    events
}

/// The raw event tables and the reference data, as the collectors left them.
#[derive(Debug)]
pub struct EventTables {
    pub place_limit_order_events: Vec<PlaceLimit>,
    pub place_market_order_events: Vec<PlaceMarket>,
    pub place_swap_order_events: Vec<PlaceSwap>,
    pub fill_events: Vec<Fill>,
    pub change_order_size_events: Vec<ChangeSize>,
    pub cancel_order_events: Vec<Cancel>,
    pub market_registration_events: Vec<MarketRegistration>,
}

/// The event tables as the contracts see them.
pub struct TablesView {
    pub place_limit_order_events: Seq<PlaceLimitView>,
    pub place_market_order_events: Seq<PlaceMarketView>,
    pub place_swap_order_events: Seq<PlaceSwapView>,
    pub fill_events: Seq<FillView>,
    pub change_order_size_events: Seq<ChangeSizeView>,
    pub cancel_order_events: Seq<CancelView>,
    pub market_registration_events: Seq<MarketRegistrationView>,
}

impl View for EventTables {
    type V = TablesView;

    open spec fn view(&self) -> TablesView {
        TablesView {
            place_limit_order_events: place_limit_views(self.place_limit_order_events@),
            place_market_order_events: place_market_views(self.place_market_order_events@),
            place_swap_order_events: place_swap_views(self.place_swap_order_events@),
            fill_events: fill_views(self.fill_events@),
            change_order_size_events: change_views(self.change_order_size_events@),
            cancel_order_events: cancel_views(self.cancel_order_events@),
            market_registration_events: registration_views(self.market_registration_events@),
        }
    }
}

/// The positions of limit placements, row by row.
pub open spec fn place_limit_keys(events: Seq<PlaceLimitView>) -> Seq<KeyView> {
    events.map_values(|event: PlaceLimitView| event.key)
}

/// The positions of market placements, row by row.
pub open spec fn place_market_keys(events: Seq<PlaceMarketView>) -> Seq<KeyView> {
    events.map_values(|event: PlaceMarketView| event.key)
}

/// The positions of swap placements, row by row.
pub open spec fn place_swap_keys(events: Seq<PlaceSwapView>) -> Seq<KeyView> {
    events.map_values(|event: PlaceSwapView| event.key)
}

/// The positions of cancels, row by row.
pub open spec fn cancel_keys(events: Seq<CancelView>) -> Seq<KeyView> {
    events.map_values(|event: CancelView| event.key)
}

/// What a pass has to fold, given the tables and the ledger: of each table
/// the rows that the ledger does not hold, in the order of the chain.
pub open spec fn loaded(tables: TablesView, ledger: Seq<KeyView>) -> BatchesView {
    BatchesView {
        place_limits: picked(
            tables.place_limit_order_events,
            load_order_of(place_limit_keys(tables.place_limit_order_events), ledger),
        ),
        place_markets: picked(
            tables.place_market_order_events,
            load_order_of(place_market_keys(tables.place_market_order_events), ledger),
        ),
        place_swaps: picked(
            tables.place_swap_order_events,
            load_order_of(place_swap_keys(tables.place_swap_order_events), ledger),
        ),
        fills: picked(
            tables.fill_events,
            load_order_of(fill_keys(tables.fill_events), ledger),
        ),
        changes: picked(
            tables.change_order_size_events,
            load_order_of(
                change_keys(tables.change_order_size_events),
                ledger,
            ),
        ),
        cancels: picked(
            tables.cancel_order_events,
            load_order_of(cancel_keys(tables.cancel_order_events), ledger),
        ),
    }
}

/// Loads the six batches of one pass.
pub fn load_unaggregated(tables: &EventTables, ledger: &Vec<EventKey>) -> (r: Batches)
    ensures
        r@ == loaded(tables@, key_views(ledger@)),
{
    let limit_order = load_order(&tables.place_limit_order_events, ledger);
    let place_limits = pick_events(&tables.place_limit_order_events, &limit_order);
    let market_order = load_order(&tables.place_market_order_events, ledger);
    let place_markets = pick_events(&tables.place_market_order_events, &market_order);
    let swap_order = load_order(&tables.place_swap_order_events, ledger);
    let place_swaps = pick_events(&tables.place_swap_order_events, &swap_order);
    let fill_order = load_order(&tables.fill_events, ledger);
    let fills = pick_events(&tables.fill_events, &fill_order);
    let change_order = load_order(&tables.change_order_size_events, ledger);
    let changes = pick_events(&tables.change_order_size_events, &change_order);
    let cancel_order = load_order(&tables.cancel_order_events, ledger);
    let cancels = pick_events(&tables.cancel_order_events, &cancel_order);
    proof {
        let done = key_views(ledger@);
        assert(positions(tables.place_limit_order_events@) =~= place_limit_keys(
            tables@.place_limit_order_events,
        ));
        assert(positions(tables.place_market_order_events@) =~= place_market_keys(
            tables@.place_market_order_events,
        ));
        assert(positions(tables.place_swap_order_events@) =~= place_swap_keys(
            tables@.place_swap_order_events,
        ));
        assert(positions(tables.fill_events@) =~= fill_keys(
            tables@.fill_events,
        ));
        assert(positions(tables.change_order_size_events@) =~= change_keys(
            tables@.change_order_size_events,
        ));
        assert(positions(tables.cancel_order_events@) =~= cancel_keys(
            tables@.cancel_order_events,
        ));
        assert(place_limit_views(place_limits@) =~= picked(
            tables@.place_limit_order_events,
            places(limit_order@),
        ));
        assert(place_market_views(place_markets@) =~= picked(
            tables@.place_market_order_events,
            places(market_order@),
        ));
        assert(place_swap_views(place_swaps@) =~= picked(
            tables@.place_swap_order_events,
            places(swap_order@),
        ));
        assert(fill_views(fills@) =~= picked(tables@.fill_events, places(fill_order@)));
        assert(change_views(changes@) =~= picked(
            tables@.change_order_size_events,
            places(change_order@),
        ));
        assert(cancel_views(cancels@) =~= picked(tables@.cancel_order_events, places(cancel_order@)));
    }
    Batches { place_limits, place_markets, place_swaps, fills, changes, cancels }
}

/// Whether the rows that `order` lists stand in the order of the chain: none
/// stands strictly before one that is listed ahead of it.
pub open spec fn follows_chain(order: Seq<int>, keys: Seq<KeyView>) -> bool {
    forall|first: int, second: int|
        0 <= first < second < order.len() ==> !key_before(
            keys[#[trigger] order[second]],
            keys[#[trigger] order[first]],
        )
}

/// The place found for a row lies behind every listed row that does not
/// stand strictly later in the chain, and at a row that does.
proof fn lemma_place_for(order: Seq<int>, keys: Seq<KeyView>, key: KeyView, from: int)
    requires
        0 <= from <= order.len(),
    ensures
        from <= place_for(order, keys, key, from) <= order.len(),
        forall|k: int|
            from <= k < place_for(order, keys, key, from) ==> !key_before(
                key,
                keys[#[trigger] order[k]],
            ),
        place_for(order, keys, key, from) < order.len() ==> key_before(
            key,
            keys[order[place_for(order, keys, key, from)]],
        ),
    decreases order.len() - from,
{
    if from < order.len() && !key_before(key, keys[order[from]]) {
        lemma_place_for(order, keys, key, from + 1);
    }
}

/// The loader's promise. Of the first `n` rows of a table, the load order
/// lists exactly those that the ledger does not hold, each once, in the order
/// of the chain.
pub proof fn lemma_load_order(keys: Seq<KeyView>, ledger: Seq<KeyView>, n: int)
    requires
        0 <= n <= keys.len(),
    ensures
        forall|k: int|
            0 <= k < load_order_upto(keys, ledger, n).len() ==> 0 <= (#[trigger] load_order_upto(
                keys,
                ledger,
                n,
            )[k]) < n && !ledger_has(ledger, keys[load_order_upto(keys, ledger, n)[k]]),
        forall|at: int|
            0 <= at < n && !ledger_has(ledger, #[trigger] keys[at]) ==> load_order_upto(
                keys,
                ledger,
                n,
            ).contains(at),
        forall|first: int, second: int|
            0 <= first < second < load_order_upto(keys, ledger, n).len() ==> #[trigger] load_order_upto(
                keys,
                ledger,
                n,
            )[first] != #[trigger] load_order_upto(keys, ledger, n)[second],
        follows_chain(load_order_upto(keys, ledger, n), keys),
    decreases n,
{
    if n > 0 {
        lemma_load_order(keys, ledger, n - 1);
        let earlier = load_order_upto(keys, ledger, n - 1);
        let order = load_order_upto(keys, ledger, n);
        if ledger_has(ledger, keys[n - 1]) {
            assert forall|at: int|
                0 <= at < n && !ledger_has(ledger, #[trigger] keys[at]) implies order.contains(
                at,
            ) by {
                assert(at < n - 1);
            }
        } else {
            let key = keys[n - 1];
            let p = place_for(earlier, keys, key, 0);
            lemma_place_for(earlier, keys, key, 0);
            assert(order == earlier.insert(p, n - 1));
            assert(order.len() == earlier.len() + 1);
            assert forall|k: int| 0 <= k < order.len() implies order[k] == (if k < p {
                earlier[k]
            } else if k == p {
                n - 1
            } else {
                earlier[k - 1]
            }) by {}
            assert forall|at: int|
                0 <= at < n && !ledger_has(ledger, #[trigger] keys[at]) implies order.contains(
                at,
            ) by {
                if at == n - 1 {
                    assert(order[p] == at);
                } else {
                    assert(earlier.contains(at));
                    let k = choose|k: int| 0 <= k < earlier.len() && earlier[k] == at;
                    if k < p {
                        assert(order[k] == at);
                    } else {
                        assert(order[k + 1] == at);
                    }
                }
            }
            assert forall|first: int, second: int|
                0 <= first < second < order.len() implies !key_before(
                keys[#[trigger] order[second]],
                keys[#[trigger] order[first]],
            ) by {
                if second < p {
                    assert(order[first] == earlier[first] && order[second] == earlier[second]);
                } else if second == p {
                    assert(order[first] == earlier[first]);
                } else if first < p {
                    assert(order[first] == earlier[first] && order[second] == earlier[second - 1]);
                } else if first == p {
                    assert(order[second] == earlier[second - 1]);
                    assert(key_before(key, keys[earlier[p]]));
                    if second - 1 > p {
                        assert(!key_before(keys[earlier[second - 1]], keys[earlier[p]]));
                    }
                } else {
                    assert(order[first] == earlier[first - 1] && order[second] == earlier[second
                        - 1]);
                }
            }
            assert forall|first: int, second: int|
                0 <= first < second < order.len() implies #[trigger] order[first]
                != #[trigger] order[second] by {
                if first < p && second > p {
                    assert(order[first] == earlier[first] && order[second] == earlier[second - 1]);
                } else if first > p {
                    assert(order[first] == earlier[first - 1] && order[second] == earlier[second
                        - 1]);
                } else if second < p {
                    assert(order[first] == earlier[first] && order[second] == earlier[second]);
                }
            }
        }
    }
}

/// Where the ledger holds every one of the first `n` rows, nothing of them
/// is loaded.
pub proof fn lemma_nothing_left_to_load(keys: Seq<KeyView>, ledger: Seq<KeyView>, n: int)
    requires
        0 <= n <= keys.len(),
        forall|at: int| 0 <= at < n ==> ledger_has(ledger, #[trigger] keys[at]),
    ensures
        load_order_upto(keys, ledger, n) == Seq::<int>::empty(),
    decreases n,
{
    if n > 0 {
        lemma_nothing_left_to_load(keys, ledger, n - 1);
    }
}

/// Where a table stands in the order of the chain already, loading does not
/// reorder it: the rows that the ledger does not hold are listed by
/// ascending place.
pub proof fn lemma_load_order_of_ordered_table(keys: Seq<KeyView>, ledger: Seq<KeyView>, n: int)
    requires
        0 <= n <= keys.len(),
        forall|x: int, y: int|
            0 <= x < y < keys.len() ==> !key_before(#[trigger] keys[y], #[trigger] keys[x]),
    ensures
        forall|first: int, second: int|
            0 <= first < second < load_order_upto(keys, ledger, n).len()
                ==> #[trigger] load_order_upto(keys, ledger, n)[first]
                < #[trigger] load_order_upto(keys, ledger, n)[second],
    decreases n,
{
    if n > 0 {
        lemma_load_order_of_ordered_table(keys, ledger, n - 1);
        lemma_load_order(keys, ledger, n - 1);
        let earlier = load_order_upto(keys, ledger, n - 1);
        let order = load_order_upto(keys, ledger, n);
        if !ledger_has(ledger, keys[n - 1]) {
            lemma_place_for(earlier, keys, keys[n - 1], 0);
            let p = place_for(earlier, keys, keys[n - 1], 0);
            if p < earlier.len() {
                assert(0 <= earlier[p] < n - 1);
                assert(!key_before(keys[n - 1], keys[earlier[p]]));
            }
            assert(order =~= earlier.push(n - 1));
            assert forall|first: int, second: int|
                0 <= first < second < order.len() implies #[trigger] order[first]
                < #[trigger] order[second] by {
                if second < earlier.len() {
                    assert(order[first] == earlier[first] && order[second] == earlier[second]);
                } else {
                    assert(order[first] == earlier[first]);
                    assert(0 <= earlier[first] < n - 1);
                }
            }
        }
    }
}

} // verus!
