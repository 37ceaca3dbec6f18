//! What holds of every pass: laws that relate the loader, the pass and the
//! ledger, proved from the definitions in [`crate::model`].

use crate::error::AggregationError;
use crate::events::same_key;
use crate::events::KeyView;
use crate::events::MarketRegistrationView;
use crate::loader::cancel_keys;
use crate::loader::lemma_load_order;
use crate::loader::lemma_nothing_left_to_load;
use crate::loader::load_order_of;
use crate::loader::loaded;
use crate::loader::picked;
use crate::loader::place_limit_keys;
use crate::loader::place_market_keys;
use crate::loader::place_swap_keys;
use crate::loader::TablesView;
use crate::model::ledger_has;
use crate::model::step_applied;
use crate::model::steps_applied;
use crate::model::StateView;
use crate::model::Step;
use crate::pass::cancel_steps;
use crate::pass::limit_steps;
use crate::pass::market_steps;
use crate::pass::merged_steps;
use crate::pass::pass_steps;
use crate::pass::swap_steps;
use crate::pass::BatchesView;
use crate::sequencer::change_keys;
use crate::sequencer::fill_keys;
use crate::sequencer::lemma_merge_takes_what_is_left;
use crate::sequencer::merged;
use crate::sequencer::takes_change;
use crate::sequencer::takes_fill;
use crate::sequencer::TurnView;
use crate::user_history::tick_applied;
use vstd::prelude::*;

verus! {

/// The position in the chain of the event that a step folds.
pub open spec fn step_key(step: Step) -> KeyView {
    match step {
        Step::PlaceLimit(event) => event.key,
        Step::PlaceMarket(event) => event.key,
        Step::PlaceSwap(event) => event.key,
        Step::Fill(event) => event.key,
        Step::Change(event) => event.key,
        Step::Cancel(event) => event.key,
    }
}

/// The positions of the events of a run, in the order of the run.
pub open spec fn step_keys(steps: Seq<Step>) -> Seq<KeyView> {
    steps.map_values(|step: Step| step_key(step))
}

/// A step that succeeds enters its event in the ledger, behind what the
/// ledger held, and the ledger did not hold the event before.
pub proof fn lemma_step_enters_ledger(
    state: StateView,
    registrations: Seq<MarketRegistrationView>,
    step: Step,
)
    requires
        step_applied(state, registrations, step) is Ok,
    ensures
        step_applied(state, registrations, step)->Ok_0.ledger == state.ledger.push(step_key(step)),
        !ledger_has(state.ledger, step_key(step)),
{
}

/// A run that succeeds enters every one of its events in the ledger, in the
/// order of the run, and changes nothing else of the ledger.
pub proof fn lemma_run_enters_ledger(
    state: StateView,
    registrations: Seq<MarketRegistrationView>,
    steps: Seq<Step>,
)
    requires
        steps_applied(state, registrations, steps) is Ok,
    ensures
        steps_applied(state, registrations, steps)->Ok_0.ledger == state.ledger + step_keys(steps),
    decreases steps.len(),
{
    if steps.len() == 0 {
        assert(state.ledger + step_keys(steps) =~= state.ledger);
    } else {
        let before = steps_applied(state, registrations, steps.drop_last())->Ok_0;
        lemma_run_enters_ledger(state, registrations, steps.drop_last());
        lemma_step_enters_ledger(before, registrations, steps.last());
        assert(state.ledger + step_keys(steps) =~= (state.ledger + step_keys(
            steps.drop_last(),
        )).push(step_key(steps.last())));
    }
}

/// Whether the ledger holds no position twice.
pub open spec fn ledger_distinct(ledger: Seq<KeyView>) -> bool {
    forall|i: int, j: int|
        0 <= i < j < ledger.len() ==> !same_key(#[trigger] ledger[i], #[trigger] ledger[j])
}

/// The ledger only grows, and never holds a position twice: a run that
/// succeeds on a ledger of distinct positions leaves one, with every earlier
/// entry where it was.
pub proof fn lemma_run_keeps_ledger_distinct(
    state: StateView,
    registrations: Seq<MarketRegistrationView>,
    steps: Seq<Step>,
)
    requires
        ledger_distinct(state.ledger),
        steps_applied(state, registrations, steps) is Ok,
    ensures
        ledger_distinct(steps_applied(state, registrations, steps)->Ok_0.ledger),
        state.ledger.len() <= steps_applied(state, registrations, steps)->Ok_0.ledger.len(),
        forall|i: int|
            0 <= i < state.ledger.len() ==> steps_applied(
                state,
                registrations,
                steps,
            )->Ok_0.ledger[i] == #[trigger] state.ledger[i],
    decreases steps.len(),
{
    if steps.len() > 0 {
        let before = steps_applied(state, registrations, steps.drop_last())->Ok_0;
        let after = steps_applied(state, registrations, steps)->Ok_0;
        lemma_run_keeps_ledger_distinct(state, registrations, steps.drop_last());
        lemma_step_enters_ledger(before, registrations, steps.last());
        assert forall|i: int, j: int| 0 <= i < j < after.ledger.len() implies !same_key(
            #[trigger] after.ledger[i],
            #[trigger] after.ledger[j],
        ) by {
            assert(after.ledger[i] == before.ledger[i]);
            if j < before.ledger.len() {
                assert(after.ledger[j] == before.ledger[j]);
            }
        }
        assert forall|i: int| 0 <= i < state.ledger.len() implies after.ledger[i]
            == #[trigger] state.ledger[i] by {
            assert(before.ledger[i] == state.ledger[i]);
        }
    }
}

/// Whatever a run holds stands in the ledger once the run has succeeded.
pub proof fn lemma_run_ledgers_its_steps(
    state: StateView,
    registrations: Seq<MarketRegistrationView>,
    steps: Seq<Step>,
    at: int,
)
    requires
        steps_applied(state, registrations, steps) is Ok,
        0 <= at < steps.len(),
    ensures
        ledger_has(steps_applied(state, registrations, steps)->Ok_0.ledger, step_key(steps[at])),
{
    lemma_run_enters_ledger(state, registrations, steps);
    let after = steps_applied(state, registrations, steps)->Ok_0.ledger;
    assert(same_key(after[state.ledger.len() + at], step_key(steps[at])));
}

/// What the ledger held before a run it still holds after it.
pub proof fn lemma_run_keeps_ledger(
    state: StateView,
    registrations: Seq<MarketRegistrationView>,
    steps: Seq<Step>,
    key: KeyView,
)
    requires
        steps_applied(state, registrations, steps) is Ok,
        ledger_has(state.ledger, key),
    ensures
        ledger_has(steps_applied(state, registrations, steps)->Ok_0.ledger, key),
{
    lemma_run_enters_ledger(state, registrations, steps);
    let after = steps_applied(state, registrations, steps)->Ok_0.ledger;
    let at = choose|at: int| 0 <= at < state.ledger.len() && same_key(state.ledger[at], key);
    assert(same_key(after[at], key));
}

/// Whether a run has a step with this position.
pub open spec fn run_takes(steps: Seq<Step>, key: KeyView) -> bool {
    exists|at: int| 0 <= at < steps.len() && step_key(#[trigger] steps[at]) == key
}

/// A pass takes every event of its batches.
pub proof fn lemma_pass_takes_every_event(batches: BatchesView)
    ensures
        forall|k: int|
            0 <= k < batches.place_limits.len() ==> run_takes(
                pass_steps(batches),
                (#[trigger] batches.place_limits[k]).key,
            ),
        forall|k: int|
            0 <= k < batches.place_markets.len() ==> run_takes(
                pass_steps(batches),
                (#[trigger] batches.place_markets[k]).key,
            ),
        forall|k: int|
            0 <= k < batches.place_swaps.len() ==> run_takes(
                pass_steps(batches),
                (#[trigger] batches.place_swaps[k]).key,
            ),
        forall|k: int|
            0 <= k < batches.fills.len() ==> run_takes(
                pass_steps(batches),
                (#[trigger] batches.fills[k]).key,
            ),
        forall|k: int|
            0 <= k < batches.changes.len() ==> run_takes(
                pass_steps(batches),
                (#[trigger] batches.changes[k]).key,
            ),
        forall|k: int|
            0 <= k < batches.cancels.len() ==> run_takes(
                pass_steps(batches),
                (#[trigger] batches.cancels[k]).key,
            ),
{
    let all = pass_steps(batches);
    let limits = limit_steps(batches.place_limits);
    let markets = market_steps(batches.place_markets);
    let swaps = swap_steps(batches.place_swaps);
    let turns = merged(fill_keys(batches.fills), change_keys(batches.changes));
    let middle = merged_steps(batches.fills, batches.changes);
    let cancels = cancel_steps(batches.cancels);
    lemma_merge_takes_what_is_left(fill_keys(batches.fills), change_keys(batches.changes), 0, 0);
    assert forall|k: int| 0 <= k < batches.place_limits.len() implies run_takes(
        all,
        (#[trigger] batches.place_limits[k]).key,
    ) by {
        assert(all[k] == limits[k]);
    }
    assert forall|k: int| 0 <= k < batches.place_markets.len() implies run_takes(
        all,
        (#[trigger] batches.place_markets[k]).key,
    ) by {
        assert(all[limits.len() + k] == markets[k]);
    }
    assert forall|k: int| 0 <= k < batches.place_swaps.len() implies run_takes(
        all,
        (#[trigger] batches.place_swaps[k]).key,
    ) by {
        assert(all[limits.len() + markets.len() + k] == swaps[k]);
    }
    assert forall|k: int| 0 <= k < batches.fills.len() implies run_takes(
        all,
        (#[trigger] batches.fills[k]).key,
    ) by {
        assert(takes_fill(turns, k));
        let t = choose|t: int| 0 <= t < turns.len() && turns[t] == TurnView::Fill(k);
        assert(middle[t] == Step::Fill(batches.fills[k]));
        assert(all[limits.len() + markets.len() + swaps.len() + t] == middle[t]);
    }
    assert forall|k: int| 0 <= k < batches.changes.len() implies run_takes(
        all,
        (#[trigger] batches.changes[k]).key,
    ) by {
        assert(takes_change(turns, k));
        let t = choose|t: int| 0 <= t < turns.len() && turns[t] == TurnView::Change(k);
        assert(middle[t] == Step::Change(batches.changes[k]));
        assert(all[limits.len() + markets.len() + swaps.len() + t] == middle[t]);
    }
    assert forall|k: int| 0 <= k < batches.cancels.len() implies run_takes(
        all,
        (#[trigger] batches.cancels[k]).key,
    ) by {
        assert(all[limits.len() + markets.len() + swaps.len() + middle.len() + k]
            == cancels[k]);
    }
}

/// The positions of every row of the event tables, table by table.
pub open spec fn table_keys(tables: TablesView) -> Seq<KeyView> {
    place_limit_keys(tables.place_limit_order_events) + place_market_keys(
        tables.place_market_order_events,
    ) + place_swap_keys(tables.place_swap_order_events) + fill_keys(tables.fill_events)
        + change_keys(tables.change_order_size_events) + cancel_keys(tables.cancel_order_events)
}

/// Whether the ledger holds every row of the event tables.
pub open spec fn ledger_covers(ledger: Seq<KeyView>, tables: TablesView) -> bool {
    forall|at: int|
        0 <= at < table_keys(tables).len() ==> ledger_has(ledger, #[trigger] table_keys(tables)[at])
}

/// A row that the ledger does not hold is loaded: the pass over what was
/// loaded has a step for it.
proof fn lemma_unaggregated_row_is_taken<V>(
    table: Seq<V>,
    keys: Seq<KeyView>,
    ledger: Seq<KeyView>,
    at: int,
) -> (k: int)
    requires
        keys.len() == table.len(),
        0 <= at < table.len(),
        !ledger_has(ledger, keys[at]),
    ensures
        0 <= k < picked(table, load_order_of(keys, ledger)).len(),
        picked(table, load_order_of(keys, ledger))[k] == table[at],
{
    lemma_load_order(keys, ledger, keys.len() as int);
    let order = load_order_of(keys, ledger);
    assert(order.contains(at));
    let k = choose|k: int| 0 <= k < order.len() && order[k] == at;
    k
}

/// Ledger and state agree after a commit. A pass that succeeds adds to the
/// ledger exactly the events it folded, in the order in which it folded
/// them; and then the ledger holds every row of the event tables, so that no
/// event is left that the derived state does not reflect.
pub proof fn lemma_tick_ledgers_every_event(store: StateView, tables: TablesView)
    requires
        tick_applied(store, tables) is Ok,
    ensures
        tick_applied(store, tables)->Ok_0.ledger == store.ledger + step_keys(
            pass_steps(loaded(tables, store.ledger)),
        ),
        ledger_covers(tick_applied(store, tables)->Ok_0.ledger, tables),
{
    let known = tables.market_registration_events;
    let batches = loaded(tables, store.ledger);
    let steps = pass_steps(batches);
    let after = tick_applied(store, tables)->Ok_0.ledger;
    lemma_run_enters_ledger(store, known, steps);
    lemma_pass_takes_every_event(batches);
    let limits = place_limit_keys(tables.place_limit_order_events);
    let markets = place_market_keys(tables.place_market_order_events);
    let swaps = place_swap_keys(tables.place_swap_order_events);
    let fills = fill_keys(tables.fill_events);
    let changes = change_keys(tables.change_order_size_events);
    let cancels = cancel_keys(tables.cancel_order_events);
    assert forall|at: int| 0 <= at < table_keys(tables).len() implies ledger_has(
        after,
        #[trigger] table_keys(tables)[at],
    ) by {
        let key = table_keys(tables)[at];
        if ledger_has(store.ledger, key) {
            lemma_run_keeps_ledger(store, known, steps, key);
        } else {
            if at < limits.len() {
                let k = lemma_unaggregated_row_is_taken(
                    tables.place_limit_order_events,
                    limits,
                    store.ledger,
                    at,
                );
                assert(batches.place_limits[k].key == key);
            } else if at < limits.len() + markets.len() {
                let k = lemma_unaggregated_row_is_taken(
                    tables.place_market_order_events,
                    markets,
                    store.ledger,
                    at - limits.len(),
                );
                assert(batches.place_markets[k].key == key);
            } else if at < limits.len() + markets.len() + swaps.len() {
                let k = lemma_unaggregated_row_is_taken(
                    tables.place_swap_order_events,
                    swaps,
                    store.ledger,
                    at - limits.len() - markets.len(),
                );
                assert(batches.place_swaps[k].key == key);
            } else if at < limits.len() + markets.len() + swaps.len() + fills.len() {
                let k = lemma_unaggregated_row_is_taken(
                    tables.fill_events,
                    fills,
                    store.ledger,
                    at - limits.len() - markets.len() - swaps.len(),
                );
                assert(batches.fills[k].key == key);
            } else if at < limits.len() + markets.len() + swaps.len() + fills.len()
                + changes.len() {
                let k = lemma_unaggregated_row_is_taken(
                    tables.change_order_size_events,
                    changes,
                    store.ledger,
                    at - limits.len() - markets.len() - swaps.len() - fills.len(),
                );
                assert(batches.changes[k].key == key);
            } else {
                let k = lemma_unaggregated_row_is_taken(
                    tables.cancel_order_events,
                    cancels,
                    store.ledger,
                    at - limits.len() - markets.len() - swaps.len() - fills.len()
                        - changes.len(),
                );
                assert(batches.cancels[k].key == key);
            }
            assert(run_takes(steps, key));
            let pos = choose|pos: int| 0 <= pos < steps.len() && step_key(steps[pos]) == key;
            lemma_run_ledgers_its_steps(store, known, steps, pos);
        }
    }
}

/// Where the ledger holds every row of the event tables, nothing is loaded,
/// and a pass changes nothing.
pub proof fn lemma_nothing_new_changes_nothing(store: StateView, tables: TablesView)
    requires
        ledger_covers(store.ledger, tables),
    ensures
        tick_applied(store, tables) == Ok::<StateView, AggregationError>(store),
{
    let ledger = store.ledger;
    let limits = place_limit_keys(tables.place_limit_order_events);
    let markets = place_market_keys(tables.place_market_order_events);
    let swaps = place_swap_keys(tables.place_swap_order_events);
    let fills = fill_keys(tables.fill_events);
    let changes = change_keys(tables.change_order_size_events);
    let cancels = cancel_keys(tables.cancel_order_events);
    let all = table_keys(tables);
    assert forall|at: int| 0 <= at < limits.len() implies ledger_has(
        ledger,
        #[trigger] limits[at],
    ) by {
        assert(all[at] == limits[at]);
    }
    assert forall|at: int| 0 <= at < markets.len() implies ledger_has(
        ledger,
        #[trigger] markets[at],
    ) by {
        assert(all[limits.len() + at] == markets[at]);
    }
    assert forall|at: int| 0 <= at < swaps.len() implies ledger_has(
        ledger,
        #[trigger] swaps[at],
    ) by {
        assert(all[limits.len() + markets.len() + at] == swaps[at]);
    }
    assert forall|at: int| 0 <= at < fills.len() implies ledger_has(
        ledger,
        #[trigger] fills[at],
    ) by {
        assert(all[limits.len() + markets.len() + swaps.len() + at] == fills[at]);
    }
    assert forall|at: int| 0 <= at < changes.len() implies ledger_has(
        ledger,
        #[trigger] changes[at],
    ) by {
        assert(all[limits.len() + markets.len() + swaps.len() + fills.len() + at]
            == changes[at]);
    }
    assert forall|at: int| 0 <= at < cancels.len() implies ledger_has(
        ledger,
        #[trigger] cancels[at],
    ) by {
        assert(all[limits.len() + markets.len() + swaps.len() + fills.len() + changes.len()
            + at] == cancels[at]);
    }
    lemma_nothing_left_to_load(limits, ledger, limits.len() as int);
    lemma_nothing_left_to_load(markets, ledger, markets.len() as int);
    lemma_nothing_left_to_load(swaps, ledger, swaps.len() as int);
    lemma_nothing_left_to_load(fills, ledger, fills.len() as int);
    lemma_nothing_left_to_load(changes, ledger, changes.len() as int);
    lemma_nothing_left_to_load(cancels, ledger, cancels.len() as int);
    let batches = loaded(tables, ledger);
    assert(batches.place_limits =~= Seq::empty());
    assert(batches.place_markets =~= Seq::empty());
    assert(batches.place_swaps =~= Seq::empty());
    assert(batches.fills =~= Seq::empty());
    assert(batches.changes =~= Seq::empty());
    assert(batches.cancels =~= Seq::empty());
    assert(fill_keys(batches.fills) =~= Seq::empty());
    assert(change_keys(batches.changes) =~= Seq::empty());
    assert(pass_steps(batches) =~= Seq::empty());
}

/// A second pass over the same tables, with no new events, leaves the
/// derived state and the ledger as the first pass left them.
pub proof fn lemma_second_tick_changes_nothing(store: StateView, tables: TablesView)
    requires
        tick_applied(store, tables) is Ok,
    ensures
        tick_applied(tick_applied(store, tables)->Ok_0, tables) == tick_applied(store, tables),
{
    lemma_tick_ledgers_every_event(store, tables);
    lemma_nothing_new_changes_nothing(tick_applied(store, tables)->Ok_0, tables);
}

/// What `times` passes over the same tables make of a store.
pub open spec fn replayed(store: StateView, tables: TablesView, times: nat) -> Result<
    StateView,
    AggregationError,
>
    decreases times,
{
    if times == 0 {
        Ok(store)
    } else {
        match replayed(store, tables, (times - 1) as nat) {
            Ok(between) => tick_applied(between, tables),
            Err(e) => Err(e),
        }
    }
}

/// Every event is folded at most once: however often the same event log is
/// passed over, the outcome is that of the first pass.
pub proof fn lemma_replay_folds_once(store: StateView, tables: TablesView, times: nat)
    requires
        times >= 1,
        tick_applied(store, tables) is Ok,
    ensures
        replayed(store, tables, times) == tick_applied(store, tables),
    decreases times,
{
    if times == 1 {
        assert(replayed(store, tables, 0) == Ok::<StateView, AggregationError>(store));
    } else {
        lemma_replay_folds_once(store, tables, (times - 1) as nat);
        lemma_second_tick_changes_nothing(store, tables);
    }
}

} // verus!
