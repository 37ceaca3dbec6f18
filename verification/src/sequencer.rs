//! The merge-ordering sequencer: fills and size changes, each batch in the
//! order of the chain, are taken in turn so that the two together are in the
//! order of the chain as well.

use crate::events::change_views;
use crate::events::fill_views;
use crate::events::key_before;
use crate::events::ChangeSize;
use crate::events::ChangeSizeView;
use crate::events::Fill;
use crate::events::FillView;
use crate::events::KeyView;
use vstd::prelude::*;

verus! {

/// Whose turn it is: the fill or the change at this place of its batch.
#[derive(Clone, Copy, Debug, PartialEq, Eq, Structural)]
pub enum Turn {
    Fill(usize),
    Change(usize),
}

/// A turn with its place as a mathematical integer.
pub enum TurnView {
    Fill(int),
    Change(int),
}

impl View for Turn {
    type V = TurnView;

    open spec fn view(&self) -> TurnView {
        match *self {
            Turn::Fill(i) => TurnView::Fill(i as int),
            Turn::Change(j) => TurnView::Change(j as int),
        }
    }
}

/// Turns with their places as mathematical integers, one by one.
pub open spec fn turn_views(turns: Seq<Turn>) -> Seq<TurnView> {
    turns.map_values(|turn: Turn| turn@)
}

/// The positions of fills, row by row.
pub open spec fn fill_keys(fills: Seq<FillView>) -> Seq<KeyView> {
    fills.map_values(|fill: FillView| fill.key)
}

/// The positions of changes of size, row by row.
pub open spec fn change_keys(changes: Seq<ChangeSizeView>) -> Seq<KeyView> {
    changes.map_values(|change: ChangeSizeView| change.key)
}

/// The turns that are left when `i` fills and `j` changes have been taken.
/// The next fill goes first if it stands strictly before the next change in
/// the chain, or if no change is left.
pub open spec fn merge_from(fills: Seq<KeyView>, changes: Seq<KeyView>, i: int, j: int) -> Seq<
    TurnView,
>
    decreases fills.len() - i + changes.len() - j,
{
    if i < 0 || j < 0 || i > fills.len() || j > changes.len() || (i == fills.len() && j
        == changes.len()) {
        Seq::empty()
    } else if j == changes.len() || (i < fills.len() && key_before(fills[i], changes[j])) {
        seq![TurnView::Fill(i)] + merge_from(fills, changes, i + 1, j)
    } else {
        seq![TurnView::Change(j)] + merge_from(fills, changes, i, j + 1)
    }
}

/// The order in which a pass takes its fills and changes.
pub open spec fn merged(fills: Seq<KeyView>, changes: Seq<KeyView>) -> Seq<TurnView> {
    merge_from(fills, changes, 0, 0)
}

/// Whether a turn names an event that its batch holds.
pub open spec fn turn_in_range(turn: TurnView, fills: int, changes: int) -> bool {
    match turn {
        TurnView::Fill(i) => 0 <= i < fills,
        TurnView::Change(j) => 0 <= j < changes,
    }
}

/// Puts the fills and the changes of one pass in one order.
pub fn merge_order(fills: &Vec<Fill>, changes: &Vec<ChangeSize>) -> (r: Vec<Turn>)
    ensures
        turn_views(r@) == merged(fill_keys(fill_views(fills@)), change_keys(change_views(changes@))),
        forall|t: int|
            0 <= t < r.len() ==> turn_in_range(
                (#[trigger] r[t])@,
                fills.len() as int,
                changes.len() as int,
            ),
{
    let ghost fill_order = fill_keys(fill_views(fills@));
    let ghost change_order = change_keys(change_views(changes@));
    let mut turns: Vec<Turn> = Vec::new();
    let mut i: usize = 0;
    let mut j: usize = 0;
    while i < fills.len() || j < changes.len()
        invariant
            i <= fills.len(),
            j <= changes.len(),
            fill_order == fill_keys(fill_views(fills@)),
            change_order == change_keys(change_views(changes@)),
            turn_views(turns@) + merge_from(fill_order, change_order, i as int, j as int)
                == merged(fill_order, change_order),
            forall|t: int|
                0 <= t < turns.len() ==> turn_in_range(
                    (#[trigger] turns[t])@,
                    fills.len() as int,
                    changes.len() as int,
                ),
        decreases fills.len() - i + changes.len() - j,
    {
        let ghost before = turn_views(turns@);
        let fill_first = if j >= changes.len() {
            true
        } else if i < fills.len() {
            fills[i].key.precedes(&changes[j].key)
        } else {
            false
        };
        if fill_first {
            turns.push(Turn::Fill(i));
            assert(turn_views(turns@) =~= before.push(TurnView::Fill(i as int)));
            assert(turn_views(turns@) + merge_from(fill_order, change_order, i + 1, j as int)
                =~= before + merge_from(fill_order, change_order, i as int, j as int));
            i += 1;
        } else {
            turns.push(Turn::Change(j));
            assert(turn_views(turns@) =~= before.push(TurnView::Change(j as int)));
            assert(turn_views(turns@) + merge_from(fill_order, change_order, i as int, j + 1)
                =~= before + merge_from(fill_order, change_order, i as int, j as int));
            j += 1;
        }
    }
    assert(turn_views(turns@) + Seq::<TurnView>::empty() =~= turn_views(turns@));
    turns
}

/// Whether keys stand in the strict order of the chain.
pub open spec fn in_chain_order(keys: Seq<KeyView>) -> bool {
    forall|x: int, y: int|
        0 <= x < y < keys.len() ==> key_before(#[trigger] keys[x], #[trigger] keys[y])
}

/// Whether `first` may be taken before `second`: two events of one batch in
/// the order of the batch, a fill before a change only if it stands strictly
/// before it in the chain, a change before a fill only if the fill does not.
pub open spec fn may_precede(
    first: TurnView,
    second: TurnView,
    fills: Seq<KeyView>,
    changes: Seq<KeyView>,
) -> bool {
    match (first, second) {
        (TurnView::Fill(a), TurnView::Change(b)) => key_before(fills[a], changes[b]),
        (TurnView::Change(b), TurnView::Fill(a)) => !key_before(fills[a], changes[b]),
        (TurnView::Fill(a), TurnView::Fill(later)) => a < later,
        (TurnView::Change(b), TurnView::Change(later)) => b < later,
    }
}

/// Whether the fill at place `a` of its batch has a turn.
pub open spec fn takes_fill(turns: Seq<TurnView>, a: int) -> bool {
    turns.contains(TurnView::Fill(a))
}

/// Whether the change at place `b` of its batch has a turn.
pub open spec fn takes_change(turns: Seq<TurnView>, b: int) -> bool {
    turns.contains(TurnView::Change(b))
}

/// What is left to merge from `(i, j)` on takes each event that is left, and
/// nothing else.
pub proof fn lemma_merge_takes_what_is_left(
    fills: Seq<KeyView>,
    changes: Seq<KeyView>,
    i: int,
    j: int,
)
    requires
        0 <= i <= fills.len(),
        0 <= j <= changes.len(),
    ensures
        merge_from(fills, changes, i, j).len() == fills.len() - i + changes.len() - j,
        forall|p: int|
            0 <= p < merge_from(fills, changes, i, j).len() ==> match #[trigger] merge_from(
                fills,
                changes,
                i,
                j,
            )[p] {
                TurnView::Fill(a) => i <= a < fills.len(),
                TurnView::Change(b) => j <= b < changes.len(),
            },
        forall|a: int|
            i <= a < fills.len() ==> #[trigger] takes_fill(merge_from(fills, changes, i, j), a),
        forall|b: int|
            j <= b < changes.len() ==> #[trigger] takes_change(merge_from(fills, changes, i, j), b),
    decreases fills.len() - i + changes.len() - j,
{
    let all = merge_from(fills, changes, i, j);
    if i == fills.len() && j == changes.len() {
    } else if j == changes.len() || (i < fills.len() && key_before(fills[i], changes[j])) {
        let rest = merge_from(fills, changes, i + 1, j);
        lemma_merge_takes_what_is_left(fills, changes, i + 1, j);
        assert(all[0] == TurnView::Fill(i));
        assert forall|a: int| i <= a < fills.len() implies #[trigger] takes_fill(all, a) by {
            if a > i {
                assert(takes_fill(rest, a));
                let p = choose|p: int| 0 <= p < rest.len() && rest[p] == TurnView::Fill(a);
                assert(all[p + 1] == TurnView::Fill(a));
            }
        }
        assert forall|b: int| j <= b < changes.len() implies #[trigger] takes_change(all, b) by {
            assert(takes_change(rest, b));
            let p = choose|p: int| 0 <= p < rest.len() && rest[p] == TurnView::Change(b);
            assert(all[p + 1] == TurnView::Change(b));
        }
        assert forall|p: int| 0 <= p < all.len() implies match #[trigger] all[p] {
            TurnView::Fill(a) => i <= a < fills.len(),
            TurnView::Change(b) => j <= b < changes.len(),
        } by {
            if p > 0 {
                assert(all[p] == rest[p - 1]);
            }
        }
    } else {
        let rest = merge_from(fills, changes, i, j + 1);
        lemma_merge_takes_what_is_left(fills, changes, i, j + 1);
        assert(all[0] == TurnView::Change(j));
        assert forall|a: int| i <= a < fills.len() implies #[trigger] takes_fill(all, a) by {
            assert(takes_fill(rest, a));
            let p = choose|p: int| 0 <= p < rest.len() && rest[p] == TurnView::Fill(a);
            assert(all[p + 1] == TurnView::Fill(a));
        }
        assert forall|b: int| j <= b < changes.len() implies #[trigger] takes_change(all, b) by {
            if b > j {
                assert(takes_change(rest, b));
                let p = choose|p: int| 0 <= p < rest.len() && rest[p] == TurnView::Change(b);
                assert(all[p + 1] == TurnView::Change(b));
            }
        }
        assert forall|p: int| 0 <= p < all.len() implies match #[trigger] all[p] {
            TurnView::Fill(a) => i <= a < fills.len(),
            TurnView::Change(b) => j <= b < changes.len(),
        } by {
            if p > 0 {
                assert(all[p] == rest[p - 1]);
            }
        }
    }
}

/// Where both batches stand in the order of the chain, so does what is left
/// to merge from `(i, j)` on.
pub proof fn lemma_merge_from_follows_chain(
    fills: Seq<KeyView>,
    changes: Seq<KeyView>,
    i: int,
    j: int,
)
    requires
        0 <= i <= fills.len(),
        0 <= j <= changes.len(),
        in_chain_order(fills),
        in_chain_order(changes),
    ensures
        forall|p: int, q: int|
            0 <= p < q < merge_from(fills, changes, i, j).len() ==> may_precede(
                #[trigger] merge_from(fills, changes, i, j)[p],
                #[trigger] merge_from(fills, changes, i, j)[q],
                fills,
                changes,
            ),
    decreases fills.len() - i + changes.len() - j,
{
    let all = merge_from(fills, changes, i, j);
    if i == fills.len() && j == changes.len() {
    } else if j == changes.len() || (i < fills.len() && key_before(fills[i], changes[j])) {
        let rest = merge_from(fills, changes, i + 1, j);
        lemma_merge_from_follows_chain(fills, changes, i + 1, j);
        lemma_merge_takes_what_is_left(fills, changes, i + 1, j);
        assert forall|p: int, q: int| 0 <= p < q < all.len() implies may_precede(
            #[trigger] all[p],
            #[trigger] all[q],
            fills,
            changes,
        ) by {
            assert(all[q] == rest[q - 1]);
            if p > 0 {
                assert(all[p] == rest[p - 1]);
            } else {
                assert(all[0] == TurnView::Fill(i));
                match rest[q - 1] {
                    TurnView::Fill(a) => {},
                    TurnView::Change(b) => {
                        assert(key_before(fills[i], changes[j]));
                        if b > j {
                            assert(key_before(changes[j], changes[b]));
                        }
                    },
                }
            }
        }
    } else {
        let rest = merge_from(fills, changes, i, j + 1);
        lemma_merge_from_follows_chain(fills, changes, i, j + 1);
        lemma_merge_takes_what_is_left(fills, changes, i, j + 1);
        assert forall|p: int, q: int| 0 <= p < q < all.len() implies may_precede(
            #[trigger] all[p],
            #[trigger] all[q],
            fills,
            changes,
        ) by {
            assert(all[q] == rest[q - 1]);
            if p > 0 {
                assert(all[p] == rest[p - 1]);
            } else {
                assert(all[0] == TurnView::Change(j));
                match rest[q - 1] {
                    TurnView::Change(b) => {},
                    TurnView::Fill(a) => {
                        assert(!key_before(fills[i], changes[j]));
                        if a > i {
                            assert(key_before(fills[i], fills[a]));
                        }
                    },
                }
            }
        }
    }
}

/// The sequencer's promise. Where the fills and the changes each stand in the
/// order of the chain, the merged order takes every fill and every change
/// once, and takes a fill before a change if and only if the fill stands
/// strictly before the change in the chain.
pub proof fn lemma_merged_order_is_chain_order(fills: Seq<KeyView>, changes: Seq<KeyView>)
    requires
        in_chain_order(fills),
        in_chain_order(changes),
    ensures
        merged(fills, changes).len() == fills.len() + changes.len(),
        forall|a: int|
            0 <= a < fills.len() ==> #[trigger] takes_fill(merged(fills, changes), a),
        forall|b: int|
            0 <= b < changes.len() ==> #[trigger] takes_change(merged(fills, changes), b),
        forall|p: int, q: int|
            0 <= p < merged(fills, changes).len() && 0 <= q < merged(fills, changes).len()
                ==> match (#[trigger] merged(fills, changes)[p], #[trigger] merged(
                fills,
                changes,
            )[q]) {
                (TurnView::Fill(a), TurnView::Change(b)) => p < q <==> key_before(
                    fills[a],
                    changes[b],
                ),
                _ => true,
            },
{
    lemma_merge_takes_what_is_left(fills, changes, 0, 0);
    lemma_merge_from_follows_chain(fills, changes, 0, 0);
    let all = merged(fills, changes);
    assert forall|p: int, q: int| 0 <= p < all.len() && 0 <= q < all.len() implies match (
        #[trigger] all[p],
        #[trigger] all[q],
    ) {
        (TurnView::Fill(a), TurnView::Change(b)) => p < q <==> key_before(fills[a], changes[b]),
        _ => true,
    } by {
        if p < q {
            assert(may_precede(all[p], all[q], fills, changes));
        } else if q < p {
            assert(may_precede(all[q], all[p], fills, changes));
        }
    }
}

} // verus!
