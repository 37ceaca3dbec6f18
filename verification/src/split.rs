//! Splitting a pass in two: where the event log is cut in two parts that do
//! not reach across the cut, folding the first part and then the second
//! gives the same book as folding both at once.

use crate::book::book;
use crate::book::well_formed;
use crate::book::Book;
use crate::book::OrderKey;
use crate::error::AggregationError;
use crate::events::MarketRegistrationView;
use crate::meaning::book_run;
use crate::laws::step_key;
use crate::meaning::book_step;
use crate::meaning::position;
use crate::events::key_before;
use crate::events::ChangeSizeView;
use crate::events::FillView;
use crate::meaning::lemma_run_means;
use crate::model::StateView;
use crate::model::Step;
use crate::pass::cancel_steps;
use crate::pass::lemma_runs_join;
use crate::pass::limit_steps;
use crate::pass::market_steps;
use crate::pass::merged_steps;
use crate::pass::pass_applied;
use crate::pass::pass_steps;
use crate::pass::swap_steps;
use crate::pass::turn_step;
use crate::pass::BatchesView;
use crate::sequencer::change_keys;
use crate::sequencer::fill_keys;
use crate::sequencer::merge_from;
use crate::sequencer::TurnView;
use vstd::prelude::*;

verus! {

/// The order that an event names; for a fill, the maker's.
pub open spec fn named_order(step: Step) -> OrderKey {
    match step {
        Step::PlaceLimit(event) => (event.market_id.value, event.order_id.value),
        Step::PlaceMarket(event) => (event.market_id.value, event.order_id.value),
        Step::PlaceSwap(event) => (event.market_id.value, event.order_id.value),
        Step::Fill(fill) => (fill.market_id.value, fill.maker_order_id.value),
        Step::Change(change) => (change.market_id.value, change.order_id.value),
        Step::Cancel(cancel) => (cancel.market_id.value, cancel.order_id.value),
    }
}

/// The other order that an event names: for a fill the taker's, for any
/// other event the same order again.
pub open spec fn other_order(step: Step) -> OrderKey {
    match step {
        Step::Fill(fill) => (fill.market_id.value, fill.taker_order_id.value),
        _ => named_order(step),
    }
}

/// Whether two events name no order in common.
pub open spec fn apart(first: Step, second: Step) -> bool {
    &&& named_order(first) != named_order(second)
    &&& named_order(first) != other_order(second)
    &&& other_order(first) != named_order(second)
    &&& other_order(first) != other_order(second)
}

/// Whether two books say the same of one order.
pub open spec fn agree_on(one: Book, other: Book, key: OrderKey) -> bool {
    &&& one.history.dom().contains(key) == other.history.dom().contains(key)
    &&& one.history.dom().contains(key) ==> one.history[key] == other.history[key]
    &&& one.limits.dom().contains(key) == other.limits.dom().contains(key)
    &&& one.limits.dom().contains(key) ==> one.limits[key] == other.limits[key]
    &&& one.markets.dom().contains(key) == other.markets.dom().contains(key)
    &&& one.markets.dom().contains(key) ==> one.markets[key] == other.markets[key]
    &&& one.swaps.dom().contains(key) == other.swaps.dom().contains(key)
    &&& one.swaps.dom().contains(key) ==> one.swaps[key] == other.swaps[key]
}

/// An event changes nothing of the orders it does not name, and enters its
/// position in the ledger, which did not hold it.
pub proof fn lemma_step_is_local(
    before: Book,
    registrations: Seq<MarketRegistrationView>,
    step: Step,
)
    requires
        book_step(before, registrations, step) is Ok,
    ensures
        forall|key: OrderKey|
            key != named_order(step) && key != other_order(step) ==> #[trigger] agree_on(
                book_step(before, registrations, step)->Ok_0,
                before,
                key,
            ),
        !before.ledger.contains(position(step_key(step))),
        book_step(before, registrations, step)->Ok_0.ledger == before.ledger.insert(
            position(step_key(step)),
        ),
{
    reveal(book_step);
    match step {
        Step::PlaceLimit(event) => {},
        Step::PlaceMarket(event) => {},
        Step::PlaceSwap(event) => {},
        Step::Fill(fill) => {},
        Step::Change(change) => {},
        Step::Cancel(cancel) => {},
    }
}

/// What an event does depends on nothing but what the book says of the
/// orders it names and on whether the ledger holds its position.
pub proof fn lemma_step_reads_locally(
    one: Book,
    other: Book,
    registrations: Seq<MarketRegistrationView>,
    step: Step,
)
    requires
        agree_on(one, other, named_order(step)),
        agree_on(one, other, other_order(step)),
        one.ledger.contains(position(step_key(step))) == other.ledger.contains(
            position(step_key(step)),
        ),
        book_step(one, registrations, step) is Ok,
    ensures
        book_step(other, registrations, step) is Ok,
        agree_on(
            book_step(one, registrations, step)->Ok_0,
            book_step(other, registrations, step)->Ok_0,
            named_order(step),
        ),
        agree_on(
            book_step(one, registrations, step)->Ok_0,
            book_step(other, registrations, step)->Ok_0,
            other_order(step),
        ),
{
    reveal(book_step);
    match step {
        Step::PlaceLimit(event) => {},
        Step::PlaceMarket(event) => {},
        Step::PlaceSwap(event) => {},
        Step::Fill(fill) => {},
        Step::Change(change) => {},
        Step::Cancel(cancel) => {},
    }
}

/// Two events that name no order in common can be folded in either order.
pub proof fn lemma_steps_commute(
    before: Book,
    registrations: Seq<MarketRegistrationView>,
    first: Step,
    second: Step,
)
    requires
        apart(first, second),
        book_step(before, registrations, first) is Ok,
        book_step(book_step(before, registrations, first)->Ok_0, registrations, second) is Ok,
    ensures
        book_step(before, registrations, second) is Ok,
        book_step(book_step(before, registrations, second)->Ok_0, registrations, first)
            == book_step(book_step(before, registrations, first)->Ok_0, registrations, second),
{
    let one = book_step(before, registrations, first)->Ok_0;
    let both = book_step(one, registrations, second)->Ok_0;
    lemma_step_is_local(before, registrations, first);
    lemma_step_is_local(one, registrations, second);
    assert(agree_on(one, before, named_order(second)));
    assert(agree_on(one, before, other_order(second)));
    lemma_step_reads_locally(one, before, registrations, second);
    let other = book_step(before, registrations, second)->Ok_0;
    lemma_step_is_local(before, registrations, second);
    assert(agree_on(other, before, named_order(first)));
    assert(agree_on(other, before, other_order(first)));
    lemma_step_reads_locally(before, other, registrations, first);
    let swapped = book_step(other, registrations, first)->Ok_0;
    lemma_step_is_local(other, registrations, first);
    assert forall|key: OrderKey| agree_on(swapped, both, key) by {
        if key == named_order(first) || key == other_order(first) {
            assert(agree_on(both, one, key));
        } else if key == named_order(second) || key == other_order(second) {
            assert(agree_on(swapped, other, key));
        } else {
            assert(agree_on(swapped, other, key));
            assert(agree_on(other, before, key));
            assert(agree_on(both, one, key));
            assert(agree_on(one, before, key));
        }
    }
    assert(swapped.history =~= both.history) by {
        assert forall|key: OrderKey| #[trigger]
            swapped.history.dom().contains(key) == both.history.dom().contains(key) by {
            assert(agree_on(swapped, both, key));
        }
        assert forall|key: OrderKey| #[trigger]
            swapped.history.dom().contains(key) implies swapped.history[key] == both.history[key] by {
            assert(agree_on(swapped, both, key));
        }
    }
    assert(swapped.limits =~= both.limits) by {
        assert forall|key: OrderKey| #[trigger]
            swapped.limits.dom().contains(key) == both.limits.dom().contains(key) by {
            assert(agree_on(swapped, both, key));
        }
        assert forall|key: OrderKey| #[trigger]
            swapped.limits.dom().contains(key) implies swapped.limits[key] == both.limits[key] by {
            assert(agree_on(swapped, both, key));
        }
    }
    assert(swapped.markets =~= both.markets) by {
        assert forall|key: OrderKey| #[trigger]
            swapped.markets.dom().contains(key) == both.markets.dom().contains(key) by {
            assert(agree_on(swapped, both, key));
        }
        assert forall|key: OrderKey| #[trigger]
            swapped.markets.dom().contains(key) implies swapped.markets[key] == both.markets[key] by {
            assert(agree_on(swapped, both, key));
        }
    }
    assert(swapped.swaps =~= both.swaps) by {
        assert forall|key: OrderKey| #[trigger]
            swapped.swaps.dom().contains(key) == both.swaps.dom().contains(key) by {
            assert(agree_on(swapped, both, key));
        }
        assert forall|key: OrderKey| #[trigger]
            swapped.swaps.dom().contains(key) implies swapped.swaps[key] == both.swaps[key] by {
            assert(agree_on(swapped, both, key));
        }
    }
    assert(swapped.ledger =~= both.ledger);
}

/// Running two runs one after the other is running them joined.
pub proof fn lemma_book_runs_join(
    before: Book,
    registrations: Seq<MarketRegistrationView>,
    first: Seq<Step>,
    second: Seq<Step>,
)
    ensures
        book_run(before, registrations, first + second) == match book_run(
            before,
            registrations,
            first,
        ) {
            Ok(between) => book_run(between, registrations, second),
            Err(e) => Err(e),
        },
    decreases second.len(),
{
    if second.len() == 0 {
        assert(first + second =~= first);
    } else {
        assert((first + second).drop_last() =~= first + second.drop_last());
        assert((first + second).last() == second.last());
        lemma_book_runs_join(before, registrations, first, second.drop_last());
    }
}

/// An event that names no order of a block may be folded ahead of the block
/// instead of behind it.
pub proof fn lemma_step_moves_ahead(
    before: Book,
    registrations: Seq<MarketRegistrationView>,
    block: Seq<Step>,
    step: Step,
)
    requires
        forall|i: int| 0 <= i < block.len() ==> apart(#[trigger] block[i], step),
        book_run(before, registrations, block.push(step)) is Ok,
    ensures
        book_run(before, registrations, seq![step] + block) == book_run(
            before,
            registrations,
            block.push(step),
        ),
    decreases block.len(),
{
    if block.len() == 0 {
        assert(seq![step] + block =~= block.push(step));
    } else {
        let init = block.drop_last();
        let last = block.last();
        assert(block.push(step).drop_last() =~= block);
        assert(block.push(step).last() == step);
        assert(book_run(before, registrations, block.push(step)) == (match book_run(
            before,
            registrations,
            block,
        ) {
            Err(e) => Err(e),
            Ok(between) => book_step(between, registrations, step),
        }));
        assert(book_run(before, registrations, block) == (match book_run(
            before,
            registrations,
            init,
        ) {
            Err(e) => Err(e),
            Ok(between) => book_step(between, registrations, last),
        }));
        let start = book_run(before, registrations, init)->Ok_0;
        assert(apart(block[block.len() - 1], step));
        lemma_steps_commute(start, registrations, last, step);
        assert(init.push(step).drop_last() =~= init);
        assert(init.push(step).last() == step);
        assert(book_run(before, registrations, init.push(step)) == book_step(
            start,
            registrations,
            step,
        ));
        assert forall|i: int| 0 <= i < init.len() implies apart(#[trigger] init[i], step) by {
            assert(init[i] == block[i]);
        }
        lemma_step_moves_ahead(before, registrations, init, step);
        let moved = (seq![step] + init).push(last);
        assert(moved.drop_last() =~= seq![step] + init);
        assert(moved.last() == last);
        assert(book_run(before, registrations, moved) == (match book_run(
            before,
            registrations,
            seq![step] + init,
        ) {
            Err(e) => Err(e),
            Ok(between) => book_step(between, registrations, last),
        }));
        assert(moved =~= seq![step] + block);
    }
}

/// A block whose events name no order of the block ahead of it may be folded
/// ahead of that block instead.
pub proof fn lemma_block_moves_ahead(
    before: Book,
    registrations: Seq<MarketRegistrationView>,
    left: Seq<Step>,
    right: Seq<Step>,
)
    requires
        forall|i: int, j: int|
            0 <= i < left.len() && 0 <= j < right.len() ==> apart(
                #[trigger] left[i],
                #[trigger] right[j],
            ),
        book_run(before, registrations, left + right) is Ok,
    ensures
        book_run(before, registrations, right + left) == book_run(
            before,
            registrations,
            left + right,
        ),
    decreases right.len(),
{
    if right.len() == 0 {
        assert(right + left =~= left + right);
    } else {
        let head = right[0];
        let rest = right.subrange(1, right.len() as int);
        assert(left + right =~= left.push(head) + rest);
        lemma_book_runs_join(before, registrations, left.push(head), rest);
        assert forall|i: int| 0 <= i < left.len() implies apart(#[trigger] left[i], head) by {
            assert(apart(left[i], right[0]));
        }
        lemma_step_moves_ahead(before, registrations, left, head);
        lemma_book_runs_join(before, registrations, seq![head] + left, rest);
        assert((seq![head] + left) + rest =~= seq![head] + (left + rest));
        lemma_book_runs_join(before, registrations, seq![head], left + rest);
        let after_head = book_run(before, registrations, seq![head])->Ok_0;
        assert forall|i: int, j: int|
            0 <= i < left.len() && 0 <= j < rest.len() implies apart(
            #[trigger] left[i],
            #[trigger] rest[j],
        ) by {
            assert(rest[j] == right[j + 1]);
        }
        lemma_block_moves_ahead(after_head, registrations, left, rest);
        lemma_book_runs_join(before, registrations, seq![head], rest + left);
        assert(seq![head] + (rest + left) =~= right + left);
    }
}

/// Within a longer run, two neighbouring blocks whose events name no order
/// in common may change places.
pub proof fn lemma_blocks_change_places(
    before: Book,
    registrations: Seq<MarketRegistrationView>,
    ahead: Seq<Step>,
    left: Seq<Step>,
    right: Seq<Step>,
    behind: Seq<Step>,
)
    requires
        forall|i: int, j: int|
            0 <= i < left.len() && 0 <= j < right.len() ==> apart(
                #[trigger] left[i],
                #[trigger] right[j],
            ),
        book_run(before, registrations, ahead + left + right + behind) is Ok,
    ensures
        book_run(before, registrations, ahead + right + left + behind) == book_run(
            before,
            registrations,
            ahead + left + right + behind,
        ),
{
    assert(ahead + left + right + behind =~= ahead + ((left + right) + behind));
    assert(ahead + right + left + behind =~= ahead + ((right + left) + behind));
    lemma_book_runs_join(before, registrations, ahead, (left + right) + behind);
    lemma_book_runs_join(before, registrations, ahead, (right + left) + behind);
    let start = book_run(before, registrations, ahead)->Ok_0;
    lemma_book_runs_join(start, registrations, left + right, behind);
    lemma_book_runs_join(start, registrations, right + left, behind);
    lemma_block_moves_ahead(start, registrations, left, right);
}

/// The fills and changes that are left from `(i, j)` on, in the order in
/// which a pass takes them.
pub open spec fn steps_from(
    fills: Seq<FillView>,
    changes: Seq<ChangeSizeView>,
    i: int,
    j: int,
) -> Seq<Step> {
    merge_from(fill_keys(fills), change_keys(changes), i, j).map_values(
        |turn: TurnView| turn_step(turn, fills, changes),
    )
}

/// Whether every fill and change of the first part stands strictly before
/// every change and fill of the second part in the chain.
pub open spec fn stands_before(first: BatchesView, second: BatchesView) -> bool {
    &&& forall|i: int, j: int|
        0 <= i < first.fills.len() && 0 <= j < second.changes.len() ==> key_before(
            (#[trigger] first.fills[i]).key,
            (#[trigger] second.changes[j]).key,
        )
    &&& forall|i: int, j: int|
        0 <= i < first.changes.len() && 0 <= j < second.fills.len() ==> key_before(
            (#[trigger] first.changes[i]).key,
            (#[trigger] second.fills[j]).key,
        )
}

proof fn lemma_merge_of_second_part(
    first: BatchesView,
    second: BatchesView,
    i: int,
    j: int,
)
    requires
        0 <= i <= second.fills.len(),
        0 <= j <= second.changes.len(),
    ensures
        steps_from(
            first.fills + second.fills,
            first.changes + second.changes,
            first.fills.len() + i,
            first.changes.len() + j,
        ) == steps_from(second.fills, second.changes, i, j),
    decreases second.fills.len() - i + second.changes.len() - j,
{
    let fills = first.fills + second.fills;
    let changes = first.changes + second.changes;
    let a = first.fills.len() as int;
    let b = first.changes.len() as int;
    let whole = merge_from(fill_keys(fills), change_keys(changes), a + i, b + j);
    let part = merge_from(fill_keys(second.fills), change_keys(second.changes), i, j);
    if i == second.fills.len() && j == second.changes.len() {
        assert(steps_from(fills, changes, a + i, b + j) =~= steps_from(
            second.fills,
            second.changes,
            i,
            j,
        ));
    } else {
        if i < second.fills.len() {
            assert(fill_keys(fills)[a + i] == fill_keys(second.fills)[i]);
            assert(fills[a + i] == second.fills[i]);
        }
        if j < second.changes.len() {
            assert(change_keys(changes)[b + j] == change_keys(second.changes)[j]);
            assert(changes[b + j] == second.changes[j]);
        }
        if j == second.changes.len() || (i < second.fills.len() && key_before(
            fill_keys(second.fills)[i],
            change_keys(second.changes)[j],
        )) {
            lemma_merge_of_second_part(first, second, i + 1, j);
            let whole_rest = steps_from(fills, changes, a + i + 1, b + j);
            let part_rest = steps_from(second.fills, second.changes, i + 1, j);
            assert(steps_from(fills, changes, a + i, b + j) =~= seq![Step::Fill(fills[a + i])]
                + whole_rest);
            assert(steps_from(second.fills, second.changes, i, j) =~= seq![
                Step::Fill(second.fills[i]),
            ] + part_rest);
        } else {
            lemma_merge_of_second_part(first, second, i, j + 1);
            let whole_rest = steps_from(fills, changes, a + i, b + j + 1);
            let part_rest = steps_from(second.fills, second.changes, i, j + 1);
            assert(steps_from(fills, changes, a + i, b + j) =~= seq![
                Step::Change(changes[b + j]),
            ] + whole_rest);
            assert(steps_from(second.fills, second.changes, i, j) =~= seq![
                Step::Change(second.changes[j]),
            ] + part_rest);
        }
    }
}

proof fn lemma_merge_of_both_parts(first: BatchesView, second: BatchesView, i: int, j: int)
    requires
        stands_before(first, second),
        0 <= i <= first.fills.len(),
        0 <= j <= first.changes.len(),
    ensures
        steps_from(first.fills + second.fills, first.changes + second.changes, i, j)
            == steps_from(first.fills, first.changes, i, j) + steps_from(
            second.fills,
            second.changes,
            0,
            0,
        ),
    decreases first.fills.len() - i + first.changes.len() - j,
{
    let fills = first.fills + second.fills;
    let changes = first.changes + second.changes;
    let tail = steps_from(second.fills, second.changes, 0, 0);
    if i == first.fills.len() && j == first.changes.len() {
        lemma_merge_of_second_part(first, second, 0, 0);
        assert(steps_from(first.fills, first.changes, i, j) + tail =~= tail);
    } else {
        if i < first.fills.len() {
            assert(fill_keys(fills)[i] == fill_keys(first.fills)[i]);
            assert(fills[i] == first.fills[i]);
        } else if second.fills.len() > 0 {
            assert(fill_keys(fills)[i] == second.fills[0].key);
        }
        if j < first.changes.len() {
            assert(change_keys(changes)[j] == change_keys(first.changes)[j]);
            assert(changes[j] == first.changes[j]);
        } else if second.changes.len() > 0 {
            assert(change_keys(changes)[j] == second.changes[0].key);
        }
        let fill_first = j == first.changes.len() || (i < first.fills.len() && key_before(
            fill_keys(first.fills)[i],
            change_keys(first.changes)[j],
        ));
        if fill_first {
            if j == first.changes.len() && second.changes.len() > 0 {
                assert(key_before(first.fills[i].key, second.changes[0].key));
            }
            lemma_merge_of_both_parts(first, second, i + 1, j);
            assert(steps_from(fills, changes, i, j) =~= seq![Step::Fill(fills[i])] + steps_from(
                fills,
                changes,
                i + 1,
                j,
            ));
            assert(steps_from(first.fills, first.changes, i, j) =~= seq![
                Step::Fill(first.fills[i]),
            ] + steps_from(first.fills, first.changes, i + 1, j));
            assert(steps_from(fills, changes, i, j) =~= steps_from(
                first.fills,
                first.changes,
                i,
                j,
            ) + tail);
        } else {
            if i == first.fills.len() && second.fills.len() > 0 {
                assert(key_before(first.changes[j].key, second.fills[0].key));
            }
            lemma_merge_of_both_parts(first, second, i, j + 1);
            assert(steps_from(fills, changes, i, j) =~= seq![Step::Change(changes[j])]
                + steps_from(fills, changes, i, j + 1));
            assert(steps_from(first.fills, first.changes, i, j) =~= seq![
                Step::Change(first.changes[j]),
            ] + steps_from(first.fills, first.changes, i, j + 1));
            assert(steps_from(fills, changes, i, j) =~= steps_from(
                first.fills,
                first.changes,
                i,
                j,
            ) + tail);
        }
    }
}

/// Where the first part's fills and changes stand before the second part's,
/// merging the joined batches is merging each part and joining the results.
pub proof fn lemma_merge_splits(first: BatchesView, second: BatchesView)
    requires
        stands_before(first, second),
    ensures
        merged_steps(first.fills + second.fills, first.changes + second.changes) == merged_steps(
            first.fills,
            first.changes,
        ) + merged_steps(second.fills, second.changes),
{
    lemma_merge_of_both_parts(first, second, 0, 0);
    assert(merged_steps(first.fills + second.fills, first.changes + second.changes)
        =~= steps_from(first.fills + second.fills, first.changes + second.changes, 0, 0));
    assert(merged_steps(first.fills, first.changes) =~= steps_from(
        first.fills,
        first.changes,
        0,
        0,
    ));
    assert(merged_steps(second.fills, second.changes) =~= steps_from(
        second.fills,
        second.changes,
        0,
        0,
    ));
}

/// The batches of two parts of the log as the batches of the whole: of each
/// kind, the first part's events and then the second part's.
pub open spec fn joined(first: BatchesView, second: BatchesView) -> BatchesView {
    BatchesView {
        place_limits: first.place_limits + second.place_limits,
        place_markets: first.place_markets + second.place_markets,
        place_swaps: first.place_swaps + second.place_swaps,
        fills: first.fills + second.fills,
        changes: first.changes + second.changes,
        cancels: first.cancels + second.cancels,
    }
}

/// Whether an event places an order.
pub open spec fn is_placement(step: Step) -> bool {
    step is PlaceLimit || step is PlaceMarket || step is PlaceSwap
}

/// Whether the cut goes through no order's life: no order that the second
/// part places is named by an event of the first part, and no order that the
/// first part cancels is named by a fill or a change of the second part.
pub open spec fn parts_keep_apart(first: BatchesView, second: BatchesView) -> bool {
    forall|i: int, j: int|
        0 <= i < pass_steps(first).len() && 0 <= j < pass_steps(second).len() && (is_placement(
            pass_steps(second)[j],
        ) || (pass_steps(first)[i] is Cancel && (pass_steps(second)[j] is Fill || pass_steps(
            second,
        )[j] is Change))) ==> apart(
            #[trigger] pass_steps(first)[i],
            #[trigger] pass_steps(second)[j],
        )
}

/// Two passes fold as one. Where the log is cut in two parts, the first
/// standing before the second in the chain and the cut going through no
/// order's life, folding the first part and then the second gives the same
/// book as folding both in one pass.
pub proof fn lemma_two_passes_fold_as_one(
    state: StateView,
    registrations: Seq<MarketRegistrationView>,
    first: BatchesView,
    second: BatchesView,
)
    requires
        well_formed(state),
        stands_before(first, second),
        parts_keep_apart(first, second),
        pass_applied(state, registrations, first) is Ok,
        pass_applied(pass_applied(state, registrations, first)->Ok_0, registrations, second)
            is Ok,
    ensures
        pass_applied(state, registrations, joined(first, second)) is Ok,
        book(pass_applied(state, registrations, joined(first, second))->Ok_0) == book(
            pass_applied(pass_applied(state, registrations, first)->Ok_0, registrations, second)->Ok_0,
        ),
{
    let one = pass_steps(first);
    let two = pass_steps(second);
    let between = pass_applied(state, registrations, first)->Ok_0;
    let end = pass_applied(between, registrations, second)->Ok_0;
    let l1 = limit_steps(first.place_limits);
    let m1 = market_steps(first.place_markets);
    let s1 = swap_steps(first.place_swaps);
    let t1 = merged_steps(first.fills, first.changes);
    let c1 = cancel_steps(first.cancels);
    let l2 = limit_steps(second.place_limits);
    let m2 = market_steps(second.place_markets);
    let s2 = swap_steps(second.place_swaps);
    let t2 = merged_steps(second.fills, second.changes);
    let c2 = cancel_steps(second.cancels);
    let start = book(state);

    lemma_runs_join(state, registrations, one, two);
    lemma_run_means(state, registrations, one + two);
    let target = Ok::<Book, AggregationError>(book(end));
    let run0 = l1 + (m1 + s1 + t1 + c1) + l2 + (m2 + s2 + t2 + c2);
    assert(run0 =~= one + two);
    assert(book_run(start, registrations, run0) == target);

    assert forall|i: int, j: int|
        0 <= i < (m1 + s1 + t1 + c1).len() && 0 <= j < l2.len() implies apart(
        #[trigger] (m1 + s1 + t1 + c1)[i],
        #[trigger] l2[j],
    ) by {
        assert((m1 + s1 + t1 + c1)[i] == one[l1.len() + i]);
        assert(l2[j] == two[j]);
    }
    lemma_blocks_change_places(
        start,
        registrations,
        l1,
        m1 + s1 + t1 + c1,
        l2,
        m2 + s2 + t2 + c2,
    );
    let run1 = (l1 + l2 + m1) + (s1 + t1 + c1) + m2 + (s2 + t2 + c2);
    assert(run1 =~= l1 + l2 + (m1 + s1 + t1 + c1) + (m2 + s2 + t2 + c2));
    assert(book_run(start, registrations, run1) == target);

    assert forall|i: int, j: int|
        0 <= i < (s1 + t1 + c1).len() && 0 <= j < m2.len() implies apart(
        #[trigger] (s1 + t1 + c1)[i],
        #[trigger] m2[j],
    ) by {
        assert((s1 + t1 + c1)[i] == one[l1.len() + m1.len() + i]);
        assert(m2[j] == two[l2.len() + j]);
    }
    lemma_blocks_change_places(
        start,
        registrations,
        l1 + l2 + m1,
        s1 + t1 + c1,
        m2,
        s2 + t2 + c2,
    );
    let run2 = (l1 + l2 + m1 + m2 + s1) + (t1 + c1) + s2 + (t2 + c2);
    assert(run2 =~= (l1 + l2 + m1) + m2 + (s1 + t1 + c1) + (s2 + t2 + c2));
    assert(book_run(start, registrations, run2) == target);

    assert forall|i: int, j: int|
        0 <= i < (t1 + c1).len() && 0 <= j < s2.len() implies apart(
        #[trigger] (t1 + c1)[i],
        #[trigger] s2[j],
    ) by {
        assert((t1 + c1)[i] == one[l1.len() + m1.len() + s1.len() + i]);
        assert(s2[j] == two[l2.len() + m2.len() + j]);
    }
    lemma_blocks_change_places(
        start,
        registrations,
        l1 + l2 + m1 + m2 + s1,
        t1 + c1,
        s2,
        t2 + c2,
    );
    let run3 = (l1 + l2 + m1 + m2 + s1 + s2 + t1) + c1 + t2 + c2;
    assert(run3 =~= (l1 + l2 + m1 + m2 + s1) + s2 + (t1 + c1) + (t2 + c2));
    assert(book_run(start, registrations, run3) == target);

    assert forall|i: int, j: int| 0 <= i < c1.len() && 0 <= j < t2.len() implies apart(
        #[trigger] c1[i],
        #[trigger] t2[j],
    ) by {
        assert(c1[i] == one[l1.len() + m1.len() + s1.len() + t1.len() + i]);
        assert(t2[j] == two[l2.len() + m2.len() + s2.len() + j]);
        assert(c1[i] is Cancel);
        assert(t2[j] is Fill || t2[j] is Change);
    }
    lemma_blocks_change_places(
        start,
        registrations,
        l1 + l2 + m1 + m2 + s1 + s2 + t1,
        c1,
        t2,
        c2,
    );
    let run4 = (l1 + l2 + m1 + m2 + s1 + s2 + t1) + t2 + c1 + c2;
    assert(book_run(start, registrations, run4) == target);

    let both = joined(first, second);
    lemma_merge_splits(first, second);
    assert(limit_steps(both.place_limits) =~= l1 + l2);
    assert(market_steps(both.place_markets) =~= m1 + m2);
    assert(swap_steps(both.place_swaps) =~= s1 + s2);
    assert(cancel_steps(both.cancels) =~= c1 + c2);
    assert(pass_steps(both) =~= run4);
    lemma_run_means(state, registrations, pass_steps(both));
}

} // verus!
