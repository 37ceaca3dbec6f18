//! A growing log: what the loader does when rows are appended to the event
//! tables between two passes, and the law that two passes over a growing
//! log fold as one pass over the grown log.

use crate::book::book;
use crate::book::well_formed;
use crate::events::key_before;
use crate::events::same_key;
use crate::events::KeyView;
use crate::laws::lemma_run_enters_ledger;
use crate::laws::lemma_tick_ledgers_every_event;
use crate::laws::step_key;
use crate::laws::step_keys;
use crate::laws::table_keys;
use crate::loader::cancel_keys;
use crate::loader::lemma_load_order;
use crate::loader::loaded;
use crate::loader::place_limit_keys;
use crate::loader::place_market_keys;
use crate::loader::place_swap_keys;
use crate::loader::TablesView;
use crate::model::StateView;
use crate::model::Step;
use crate::pass::cancel_steps;
use crate::pass::limit_steps;
use crate::pass::market_steps;
use crate::pass::merged_steps;
use crate::pass::pass_steps;
use crate::pass::swap_steps;
use crate::sequencer::change_keys;
use crate::sequencer::fill_keys;
use crate::sequencer::lemma_merge_takes_what_is_left;
use crate::sequencer::merged;
use crate::sequencer::TurnView;
use crate::split::joined;
use crate::split::lemma_two_passes_fold_as_one;
use crate::split::parts_keep_apart;
use crate::split::stands_before;
use crate::user_history::tick_applied;
use crate::loader::lemma_nothing_left_to_load;
use crate::loader::load_order_of;
use crate::loader::load_order_upto;
use crate::loader::picked;
use crate::loader::place_for;
use crate::model::ledger_has;
use vstd::prelude::*;

verus! {

/// The place for a row depends on the positions of the listed rows only.
proof fn lemma_place_for_reads_listed(
    order: Seq<int>,
    keys: Seq<KeyView>,
    other: Seq<KeyView>,
    key: KeyView,
    from: int,
)
    requires
        0 <= from <= order.len(),
        forall|k: int| 0 <= k < order.len() ==> keys[#[trigger] order[k]] == other[order[k]],
    ensures
        place_for(order, keys, key, from) == place_for(order, other, key, from),
    decreases order.len() - from,
{
    if from < order.len() {
        assert(keys[order[from]] == other[order[from]]);
        if !key_before(key, keys[order[from]]) {
            lemma_place_for_reads_listed(order, keys, other, key, from + 1);
        }
    }
}

/// What is loaded of the first `n` rows depends on those rows only.
proof fn lemma_load_order_reads_prefix(
    keys: Seq<KeyView>,
    other: Seq<KeyView>,
    ledger: Seq<KeyView>,
    n: int,
)
    requires
        0 <= n <= keys.len(),
        n <= other.len(),
        forall|i: int| 0 <= i < n ==> #[trigger] keys[i] == other[i],
    ensures
        load_order_upto(keys, ledger, n) == load_order_upto(other, ledger, n),
    decreases n,
{
    if n > 0 {
        lemma_load_order_reads_prefix(keys, other, ledger, n - 1);
        lemma_load_order(keys, ledger, n - 1);
        let earlier = load_order_upto(keys, ledger, n - 1);
        assert(keys[n - 1] == other[n - 1]);
        assert forall|k: int| 0 <= k < earlier.len() implies keys[#[trigger] earlier[k]]
            == other[earlier[k]] by {
            assert(0 <= earlier[k] < n - 1);
        }
        lemma_place_for_reads_listed(earlier, keys, other, keys[n - 1], 0);
    }
}

/// A row that stands before none of the rows listed in `ahead` finds its
/// place behind all of them.
proof fn lemma_place_for_skips(
    ahead: Seq<int>,
    behind: Seq<int>,
    keys: Seq<KeyView>,
    key: KeyView,
    from: int,
)
    requires
        0 <= from <= ahead.len(),
        forall|k: int| 0 <= k < ahead.len() ==> !key_before(key, keys[#[trigger] ahead[k]]),
    ensures
        place_for(ahead + behind, keys, key, from) == ahead.len() + place_for(
            behind,
            keys,
            key,
            0,
        ),
    decreases ahead.len() - from,
{
    if from < ahead.len() {
        assert((ahead + behind)[from] == ahead[from]);
        lemma_place_for_skips(ahead, behind, keys, key, from + 1);
    } else {
        lemma_place_for_shifts(ahead, behind, keys, key, 0);
    }
}

proof fn lemma_place_for_shifts(
    ahead: Seq<int>,
    behind: Seq<int>,
    keys: Seq<KeyView>,
    key: KeyView,
    from: int,
)
    requires
        0 <= from <= behind.len(),
    ensures
        place_for(ahead + behind, keys, key, ahead.len() + from) == ahead.len() + place_for(
            behind,
            keys,
            key,
            from,
        ),
    decreases behind.len() - from,
{
    if from < behind.len() {
        assert((ahead + behind)[ahead.len() + from] == behind[from]);
        if !key_before(key, keys[behind[from]]) {
            lemma_place_for_shifts(ahead, behind, keys, key, from + 1);
        }
    }
}

/// Whether a table has grown behind its first `old` rows in a way that two
/// passes can tell apart: the later ledger holds every old row, holds a new
/// row exactly if the earlier ledger did, and no new row stands before an
/// old one.
pub open spec fn grown_behind(
    keys: Seq<KeyView>,
    old: int,
    earlier_ledger: Seq<KeyView>,
    later_ledger: Seq<KeyView>,
) -> bool {
    &&& 0 <= old <= keys.len()
    &&& forall|a: int| 0 <= a < old ==> ledger_has(later_ledger, #[trigger] keys[a])
    &&& forall|b: int|
        old <= b < keys.len() ==> ledger_has(later_ledger, #[trigger] keys[b]) == ledger_has(
            earlier_ledger,
            keys[b],
        )
    &&& forall|a: int, b: int|
        0 <= a < old && old <= b < keys.len() ==> !key_before(
            #[trigger] keys[b],
            #[trigger] keys[a],
        )
}

/// What one pass would load of a grown table is what the first of two passes
/// loads of the old rows, and behind it what the second loads.
pub proof fn lemma_load_order_of_grown(
    keys: Seq<KeyView>,
    old: int,
    earlier_ledger: Seq<KeyView>,
    later_ledger: Seq<KeyView>,
    n: int,
)
    requires
        grown_behind(keys, old, earlier_ledger, later_ledger),
        old <= n <= keys.len(),
    ensures
        load_order_upto(keys, earlier_ledger, n) == load_order_upto(keys, earlier_ledger, old)
            + load_order_upto(keys, later_ledger, n),
        forall|k: int|
            0 <= k < load_order_upto(keys, later_ledger, n).len() ==> old <= (
            #[trigger] load_order_upto(keys, later_ledger, n)[k]) < n,
    decreases n - old,
{
    let ahead = load_order_upto(keys, earlier_ledger, old);
    if n == old {
        lemma_nothing_left_to_load(keys, later_ledger, old);
        assert(ahead + load_order_upto(keys, later_ledger, n) =~= ahead);
    } else {
        lemma_load_order_of_grown(keys, old, earlier_ledger, later_ledger, n - 1);
        let behind = load_order_upto(keys, later_ledger, n - 1);
        let key = keys[n - 1];
        assert(ledger_has(later_ledger, keys[n - 1]) == ledger_has(earlier_ledger, keys[n - 1]));
        if !ledger_has(earlier_ledger, key) {
            lemma_load_order(keys, earlier_ledger, old);
            assert forall|k: int| 0 <= k < ahead.len() implies !key_before(
                key,
                keys[#[trigger] ahead[k]],
            ) by {
                assert(0 <= ahead[k] < old);
                assert(!key_before(keys[n - 1], keys[ahead[k]]));
            }
            lemma_place_for_skips(ahead, behind, keys, key, 0);
            let p = place_for(behind, keys, key, 0);
            lemma_place_in_range(behind, keys, key, 0);
            assert((ahead + behind).insert(ahead.len() + p, n - 1) =~= ahead + behind.insert(
                p,
                n - 1,
            ));
            let after = behind.insert(p, n - 1);
            assert forall|k: int| 0 <= k < after.len() implies old <= (#[trigger] after[k])
                < n by {
                if k < p {
                    assert(after[k] == behind[k]);
                } else if k > p {
                    assert(after[k] == behind[k - 1]);
                }
            }
        }
    }
}

proof fn lemma_place_in_range(order: Seq<int>, keys: Seq<KeyView>, key: KeyView, from: int)
    requires
        0 <= from <= order.len(),
    ensures
        from <= place_for(order, keys, key, from) <= order.len(),
    decreases order.len() - from,
{
    if from < order.len() && !key_before(key, keys[order[from]]) {
        lemma_place_in_range(order, keys, key, from + 1);
    }
}

/// The rows that one pass would load of a grown table are the rows that the
/// first of two passes loads of the table before it grew, and behind them
/// the rows that the second pass loads of the grown table.
pub proof fn lemma_load_of_grown<V>(
    before: Seq<V>,
    before_keys: Seq<KeyView>,
    table: Seq<V>,
    keys: Seq<KeyView>,
    earlier_ledger: Seq<KeyView>,
    later_ledger: Seq<KeyView>,
)
    requires
        before.len() == before_keys.len(),
        table.len() == keys.len(),
        before.len() <= table.len(),
        forall|i: int| 0 <= i < before.len() ==> #[trigger] table[i] == before[i],
        forall|i: int| 0 <= i < before.len() ==> #[trigger] keys[i] == before_keys[i],
        grown_behind(keys, before.len() as int, earlier_ledger, later_ledger),
    ensures
        picked(table, load_order_of(keys, earlier_ledger)) == picked(
            before,
            load_order_of(before_keys, earlier_ledger),
        ) + picked(table, load_order_of(keys, later_ledger)),
        forall|k: int|
            0 <= k < load_order_of(keys, later_ledger).len() ==> before.len() <= (
            #[trigger] load_order_of(keys, later_ledger)[k]) < table.len(),
        forall|k: int|
            0 <= k < load_order_of(before_keys, earlier_ledger).len() ==> 0 <= (
            #[trigger] load_order_of(before_keys, earlier_ledger)[k]) < before.len(),
{
    let old = before.len() as int;
    lemma_load_order_of_grown(keys, old, earlier_ledger, later_ledger, keys.len() as int);
    lemma_load_order_reads_prefix(keys, before_keys, earlier_ledger, old);
    lemma_load_order(before_keys, earlier_ledger, old);
    let ahead = load_order_of(before_keys, earlier_ledger);
    let behind = load_order_of(keys, later_ledger);
    assert(load_order_of(keys, earlier_ledger) == ahead + behind);
    assert forall|k: int| 0 <= k < ahead.len() implies picked(table, ahead + behind)[k] == picked(
        before,
        ahead,
    )[k] by {
        assert(0 <= ahead[k] < old);
        assert(table[ahead[k]] == before[ahead[k]]);
    }
    assert(picked(table, ahead + behind) =~= picked(before, ahead) + picked(table, behind));
}

/// Whether `table` is `before` with rows appended.
pub open spec fn extends<V>(before: Seq<V>, table: Seq<V>) -> bool {
    before.len() <= table.len() && table.subrange(0, before.len() as int) == before
}

/// Whether the later tables are the earlier ones with rows appended; the
/// registrations are the same.
pub open spec fn grown_from(earlier: TablesView, later: TablesView) -> bool {
    &&& extends(earlier.place_limit_order_events, later.place_limit_order_events)
    &&& extends(earlier.place_market_order_events, later.place_market_order_events)
    &&& extends(earlier.place_swap_order_events, later.place_swap_order_events)
    &&& extends(earlier.fill_events, later.fill_events)
    &&& extends(earlier.change_order_size_events, later.change_order_size_events)
    &&& extends(earlier.cancel_order_events, later.cancel_order_events)
    &&& later.market_registration_events == earlier.market_registration_events
}

/// The positions of the rows that were appended, table by table.
pub open spec fn appended_keys(earlier: TablesView, later: TablesView) -> Seq<KeyView> {
    place_limit_keys(later.place_limit_order_events).skip(
        earlier.place_limit_order_events.len() as int,
    ) + place_market_keys(later.place_market_order_events).skip(
        earlier.place_market_order_events.len() as int,
    ) + place_swap_keys(later.place_swap_order_events).skip(
        earlier.place_swap_order_events.len() as int,
    ) + fill_keys(later.fill_events).skip(earlier.fill_events.len() as int) + change_keys(
        later.change_order_size_events,
    ).skip(earlier.change_order_size_events.len() as int) + cancel_keys(
        later.cancel_order_events,
    ).skip(earlier.cancel_order_events.len() as int)
}

/// Whether every appended row stands strictly behind every earlier row in
/// the chain: the earlier tables are a prefix of the log.
pub open spec fn appended_rows_stand_behind(earlier: TablesView, later: TablesView) -> bool {
    forall|a: int, b: int|
        0 <= a < table_keys(earlier).len() && 0 <= b < appended_keys(earlier, later).len()
            ==> key_before(
            #[trigger] table_keys(earlier)[a],
            #[trigger] appended_keys(earlier, later)[b],
        )
}

/// Every event that a pass folds is a row of the tables it loaded from.
proof fn lemma_steps_come_from_tables(tables: TablesView, ledger: Seq<KeyView>, at: int) -> (a:
    int)
    requires
        0 <= at < pass_steps(loaded(tables, ledger)).len(),
    ensures
        0 <= a < table_keys(tables).len(),
        table_keys(tables)[a] == step_key(pass_steps(loaded(tables, ledger))[at]),
{
    let batches = loaded(tables, ledger);
    let all = pass_steps(batches);
    let limits = limit_steps(batches.place_limits);
    let markets = market_steps(batches.place_markets);
    let swaps = swap_steps(batches.place_swaps);
    let middle = merged_steps(batches.fills, batches.changes);
    let cancels = cancel_steps(batches.cancels);
    let turns = merged(fill_keys(batches.fills), change_keys(batches.changes));
    let kl = place_limit_keys(tables.place_limit_order_events);
    let km = place_market_keys(tables.place_market_order_events);
    let ks = place_swap_keys(tables.place_swap_order_events);
    let kf = fill_keys(tables.fill_events);
    let kc = change_keys(tables.change_order_size_events);
    let kx = cancel_keys(tables.cancel_order_events);
    lemma_load_order(kl, ledger, kl.len() as int);
    lemma_load_order(km, ledger, km.len() as int);
    lemma_load_order(ks, ledger, ks.len() as int);
    lemma_load_order(kf, ledger, kf.len() as int);
    lemma_load_order(kc, ledger, kc.len() as int);
    lemma_load_order(kx, ledger, kx.len() as int);
    lemma_merge_takes_what_is_left(fill_keys(batches.fills), change_keys(batches.changes), 0, 0);
    if at < limits.len() {
        let row = load_order_of(kl, ledger)[at];
        assert(all[at] == limits[at]);
        assert(table_keys(tables)[row] == kl[row]);
        row
    } else if at < limits.len() + markets.len() {
        let k = at - limits.len();
        let row = load_order_of(km, ledger)[k];
        assert(all[at] == markets[k]);
        assert(table_keys(tables)[kl.len() + row] == km[row]);
        kl.len() + row
    } else if at < limits.len() + markets.len() + swaps.len() {
        let k = at - limits.len() - markets.len();
        let row = load_order_of(ks, ledger)[k];
        assert(all[at] == swaps[k]);
        assert(table_keys(tables)[kl.len() + km.len() + row] == ks[row]);
        kl.len() + km.len() + row
    } else if at < limits.len() + markets.len() + swaps.len() + middle.len() {
        let t = at - limits.len() - markets.len() - swaps.len();
        assert(all[at] == middle[t]);
        match turns[t] {
            TurnView::Fill(i) => {
                let row = load_order_of(kf, ledger)[i];
                assert(middle[t] == Step::Fill(batches.fills[i]));
                assert(table_keys(tables)[kl.len() + km.len() + ks.len() + row] == kf[row]);
                kl.len() + km.len() + ks.len() + row
            },
            TurnView::Change(j) => {
                let row = load_order_of(kc, ledger)[j];
                assert(middle[t] == Step::Change(batches.changes[j]));
                assert(table_keys(tables)[kl.len() + km.len() + ks.len() + kf.len() + row]
                    == kc[row]);
                kl.len() + km.len() + ks.len() + kf.len() + row
            },
        }
    } else {
        let k = at - limits.len() - markets.len() - swaps.len() - middle.len();
        let row = load_order_of(kx, ledger)[k];
        assert(all[at] == cancels[k]);
        assert(table_keys(tables)[kl.len() + km.len() + ks.len() + kf.len() + kc.len() + row]
            == kx[row]);
        kl.len() + km.len() + ks.len() + kf.len() + kc.len() + row
    }
}

/// After the first of two passes the ledger holds an appended row exactly if
/// it held the row before.
proof fn lemma_appended_rows_are_new(
    store: StateView,
    earlier: TablesView,
    later: TablesView,
    b: int,
)
    requires
        appended_rows_stand_behind(earlier, later),
        tick_applied(store, earlier) is Ok,
        0 <= b < appended_keys(earlier, later).len(),
    ensures
        ledger_has(tick_applied(store, earlier)->Ok_0.ledger, appended_keys(earlier, later)[b])
            == ledger_has(store.ledger, appended_keys(earlier, later)[b]),
{
    let key = appended_keys(earlier, later)[b];
    let steps = pass_steps(loaded(earlier, store.ledger));
    let after = tick_applied(store, earlier)->Ok_0.ledger;
    lemma_run_enters_ledger(store, earlier.market_registration_events, steps);
    assert(after == store.ledger + step_keys(steps));
    if ledger_has(store.ledger, key) {
        let i = choose|i: int| 0 <= i < store.ledger.len() && same_key(store.ledger[i], key);
        assert(same_key(after[i], key));
    }
    if ledger_has(after, key) {
        let i = choose|i: int| 0 <= i < after.len() && same_key(after[i], key);
        if i < store.ledger.len() {
            assert(same_key(store.ledger[i], key));
        } else {
            let at = i - store.ledger.len();
            assert(after[i] == step_key(steps[at]));
            let a = lemma_steps_come_from_tables(earlier, store.ledger, at);
            assert(key_before(table_keys(earlier)[a], appended_keys(earlier, later)[b]));
        }
    }
}

/// Two ticks fold as one. Where the event tables grow between two passes by
/// rows that stand behind all earlier rows in the chain, and the cut between
/// the earlier and the appended rows goes through no order's life, the two
/// passes leave the same book as one pass over the grown tables.
pub proof fn lemma_two_ticks_fold_as_one(store: StateView, earlier: TablesView, later: TablesView)
    requires
        well_formed(store),
        grown_from(earlier, later),
        appended_rows_stand_behind(earlier, later),
        tick_applied(store, earlier) is Ok,
        tick_applied(tick_applied(store, earlier)->Ok_0, later) is Ok,
        parts_keep_apart(
            loaded(earlier, store.ledger),
            loaded(later, tick_applied(store, earlier)->Ok_0.ledger),
        ),
    ensures
        tick_applied(store, later) is Ok,
        book(tick_applied(store, later)->Ok_0) == book(
            tick_applied(tick_applied(store, earlier)->Ok_0, later)->Ok_0,
        ),
{
    let between = tick_applied(store, earlier)->Ok_0;
    let l0 = store.ledger;
    let l1 = between.ledger;
    let old_all = table_keys(earlier);
    let new_all = appended_keys(earlier, later);
    lemma_tick_ledgers_every_event(store, earlier);

    let ol = place_limit_keys(earlier.place_limit_order_events);
    let om = place_market_keys(earlier.place_market_order_events);
    let os = place_swap_keys(earlier.place_swap_order_events);
    let of = fill_keys(earlier.fill_events);
    let oc = change_keys(earlier.change_order_size_events);
    let ox = cancel_keys(earlier.cancel_order_events);
    let kl = place_limit_keys(later.place_limit_order_events);
    let km = place_market_keys(later.place_market_order_events);
    let ks = place_swap_keys(later.place_swap_order_events);
    let kf = fill_keys(later.fill_events);
    let kc = change_keys(later.change_order_size_events);
    let kx = cancel_keys(later.cancel_order_events);
    let nl = kl.len() - ol.len();
    let nm = km.len() - om.len();
    let ns = ks.len() - os.len();
    let nf = kf.len() - of.len();
    let nc = kc.len() - oc.len();

    assert forall|i: int| 0 <= i < ol.len() implies #[trigger] kl[i] == ol[i] && old_all[i]
        == ol[i] by {
        assert(later.place_limit_order_events.subrange(0, ol.len() as int)[i]
            == later.place_limit_order_events[i]);
    }
    assert forall|i: int| 0 <= i < om.len() implies #[trigger] km[i] == om[i] && old_all[ol.len()
        + i] == om[i] by {
        assert(later.place_market_order_events.subrange(0, om.len() as int)[i]
            == later.place_market_order_events[i]);
    }
    assert forall|i: int| 0 <= i < os.len() implies #[trigger] ks[i] == os[i] && old_all[ol.len()
        + om.len() + i] == os[i] by {
        assert(later.place_swap_order_events.subrange(0, os.len() as int)[i]
            == later.place_swap_order_events[i]);
    }
    assert forall|i: int| 0 <= i < of.len() implies #[trigger] kf[i] == of[i] && old_all[ol.len()
        + om.len() + os.len() + i] == of[i] by {
        assert(later.fill_events.subrange(0, of.len() as int)[i] == later.fill_events[i]);
    }
    assert forall|i: int| 0 <= i < oc.len() implies #[trigger] kc[i] == oc[i] && old_all[ol.len()
        + om.len() + os.len() + of.len() + i] == oc[i] by {
        assert(later.change_order_size_events.subrange(0, oc.len() as int)[i]
            == later.change_order_size_events[i]);
    }
    assert forall|i: int| 0 <= i < ox.len() implies #[trigger] kx[i] == ox[i] && old_all[ol.len()
        + om.len() + os.len() + of.len() + oc.len() + i] == ox[i] by {
        assert(later.cancel_order_events.subrange(0, ox.len() as int)[i]
            == later.cancel_order_events[i]);
    }
    assert forall|b: int| ol.len() <= b < kl.len() implies #[trigger] kl[b] == new_all[b
        - ol.len()] by {}
    assert forall|b: int| om.len() <= b < km.len() implies #[trigger] km[b] == new_all[nl + b
        - om.len()] by {}
    assert forall|b: int| os.len() <= b < ks.len() implies #[trigger] ks[b] == new_all[nl + nm + b
        - os.len()] by {}
    assert forall|b: int| of.len() <= b < kf.len() implies #[trigger] kf[b] == new_all[nl + nm
        + ns + b - of.len()] by {}
    assert forall|b: int| oc.len() <= b < kc.len() implies #[trigger] kc[b] == new_all[nl + nm
        + ns + nf + b - oc.len()] by {}
    assert forall|b: int| ox.len() <= b < kx.len() implies #[trigger] kx[b] == new_all[nl + nm
        + ns + nf + nc + b - ox.len()] by {}

    assert forall|b: int| 0 <= b < new_all.len() implies ledger_has(l1, #[trigger] new_all[b])
        == ledger_has(l0, new_all[b]) by {
        lemma_appended_rows_are_new(store, earlier, later, b);
    }
    assert forall|a: int| 0 <= a < old_all.len() implies ledger_has(l1, #[trigger] old_all[a]) by {}

    assert(grown_behind(kl, ol.len() as int, l0, l1)) by {
        assert forall|a: int, b: int| 0 <= a < ol.len() && ol.len() <= b < kl.len() implies !key_before(
            #[trigger] kl[b],
            #[trigger] kl[a],
        ) by {
            assert(key_before(old_all[a], new_all[b - ol.len()]));
        }
        assert forall|a: int| 0 <= a < ol.len() implies ledger_has(l1, #[trigger] kl[a]) by {
            assert(kl[a] == old_all[a]);
        }
    }
    assert(grown_behind(km, om.len() as int, l0, l1)) by {
        assert forall|a: int, b: int| 0 <= a < om.len() && om.len() <= b < km.len() implies !key_before(
            #[trigger] km[b],
            #[trigger] km[a],
        ) by {
            assert(key_before(old_all[ol.len() + a], new_all[nl + b - om.len()]));
        }
        assert forall|a: int| 0 <= a < om.len() implies ledger_has(l1, #[trigger] km[a]) by {
            assert(km[a] == old_all[ol.len() + a]);
        }
    }
    assert(grown_behind(ks, os.len() as int, l0, l1)) by {
        assert forall|a: int, b: int| 0 <= a < os.len() && os.len() <= b < ks.len() implies !key_before(
            #[trigger] ks[b],
            #[trigger] ks[a],
        ) by {
            assert(key_before(old_all[ol.len() + om.len() + a], new_all[nl + nm + b - os.len()]));
        }
        assert forall|a: int| 0 <= a < os.len() implies ledger_has(l1, #[trigger] ks[a]) by {
            assert(ks[a] == old_all[ol.len() + om.len() + a]);
        }
    }
    assert(grown_behind(kf, of.len() as int, l0, l1)) by {
        assert forall|a: int, b: int| 0 <= a < of.len() && of.len() <= b < kf.len() implies !key_before(
            #[trigger] kf[b],
            #[trigger] kf[a],
        ) by {
            assert(key_before(
                old_all[ol.len() + om.len() + os.len() + a],
                new_all[nl + nm + ns + b - of.len()],
            ));
        }
        assert forall|a: int| 0 <= a < of.len() implies ledger_has(l1, #[trigger] kf[a]) by {
            assert(kf[a] == old_all[ol.len() + om.len() + os.len() + a]);
        }
    }
    assert(grown_behind(kc, oc.len() as int, l0, l1)) by {
        assert forall|a: int, b: int| 0 <= a < oc.len() && oc.len() <= b < kc.len() implies !key_before(
            #[trigger] kc[b],
            #[trigger] kc[a],
        ) by {
            assert(key_before(
                old_all[ol.len() + om.len() + os.len() + of.len() + a],
                new_all[nl + nm + ns + nf + b - oc.len()],
            ));
        }
        assert forall|a: int| 0 <= a < oc.len() implies ledger_has(l1, #[trigger] kc[a]) by {
            assert(kc[a] == old_all[ol.len() + om.len() + os.len() + of.len() + a]);
        }
    }
    assert(grown_behind(kx, ox.len() as int, l0, l1)) by {
        assert forall|a: int, b: int| 0 <= a < ox.len() && ox.len() <= b < kx.len() implies !key_before(
            #[trigger] kx[b],
            #[trigger] kx[a],
        ) by {
            assert(key_before(
                old_all[ol.len() + om.len() + os.len() + of.len() + oc.len() + a],
                new_all[nl + nm + ns + nf + nc + b - ox.len()],
            ));
        }
        assert forall|a: int| 0 <= a < ox.len() implies ledger_has(l1, #[trigger] kx[a]) by {
            assert(kx[a] == old_all[ol.len() + om.len() + os.len() + of.len() + oc.len() + a]);
        }
    }

    lemma_load_of_grown(
        earlier.place_limit_order_events,
        ol,
        later.place_limit_order_events,
        kl,
        l0,
        l1,
    );
    lemma_load_of_grown(
        earlier.place_market_order_events,
        om,
        later.place_market_order_events,
        km,
        l0,
        l1,
    );
    lemma_load_of_grown(
        earlier.place_swap_order_events,
        os,
        later.place_swap_order_events,
        ks,
        l0,
        l1,
    );
    lemma_load_of_grown(earlier.fill_events, of, later.fill_events, kf, l0, l1);
    lemma_load_of_grown(
        earlier.change_order_size_events,
        oc,
        later.change_order_size_events,
        kc,
        l0,
        l1,
    );
    lemma_load_of_grown(earlier.cancel_order_events, ox, later.cancel_order_events, kx, l0, l1);

    let first = loaded(earlier, l0);
    let second = loaded(later, l1);
    assert(loaded(later, l0) == joined(first, second));

    assert(stands_before(first, second)) by {
        assert forall|i: int, j: int|
            0 <= i < first.fills.len() && 0 <= j < second.changes.len() implies key_before(
            (#[trigger] first.fills[i]).key,
            (#[trigger] second.changes[j]).key,
        ) by {
            let a = load_order_of(of, l0)[i];
            let b = load_order_of(kc, l1)[j];
            assert(first.fills[i].key == of[a]);
            assert(second.changes[j].key == kc[b]);
            assert(key_before(
                old_all[ol.len() + om.len() + os.len() + a],
                new_all[nl + nm + ns + nf + b - oc.len()],
            ));
        }
        assert forall|i: int, j: int|
            0 <= i < first.changes.len() && 0 <= j < second.fills.len() implies key_before(
            (#[trigger] first.changes[i]).key,
            (#[trigger] second.fills[j]).key,
        ) by {
            let a = load_order_of(oc, l0)[i];
            let b = load_order_of(kf, l1)[j];
            assert(first.changes[i].key == oc[a]);
            assert(second.fills[j].key == kf[b]);
            assert(key_before(
                old_all[ol.len() + om.len() + os.len() + of.len() + a],
                new_all[nl + nm + ns + b - of.len()],
            ));
        }
    }
    lemma_two_passes_fold_as_one(store, earlier.market_registration_events, first, second);
}

} // verus!
