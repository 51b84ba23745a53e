//! The canonical listing order of a deck's cards: newest first.
use vstd::prelude::*;
use vstd::seq_lib::to_multiset_build;
use vstd::seq_lib::to_multiset_insert;

verus! {

/// What the listing order reads of a stored card.
#[derive(Clone, Copy, Debug, PartialEq, Eq, Structural)]
pub struct CardRow {
    pub id: i64,
    pub deck_id: i64,
    pub created_at: i64,
}

/// The rows of one deck, in stored order.
pub open spec fn rows_of_deck(rows: Seq<CardRow>, deck_id: i64) -> Seq<CardRow>
    decreases rows.len(),
{
    if rows.len() == 0 {
        Seq::empty()
    } else if rows.last().deck_id == deck_id {
        rows_of_deck(rows.drop_last(), deck_id).push(rows.last())
    } else {
        rows_of_deck(rows.drop_last(), deck_id)
    }
}

/// Creation times never increase along the sequence.
pub open spec fn newest_first(s: Seq<CardRow>) -> bool {
    forall|a: int, b: int| 0 <= a < b < s.len() ==> (#[trigger] s[a]).created_at >= (#[trigger] s[b]).created_at
}

/// The rows of the deck, newest first.
pub fn order_card_rows(rows: &Vec<CardRow>, deck_id: i64) -> (r: Vec<CardRow>)
    ensures
        newest_first(r@),
        r@.to_multiset() == rows_of_deck(rows@, deck_id).to_multiset(),
{
    let mut out: Vec<CardRow> = Vec::new();
    let mut i: usize = 0;
    assert(rows@.take(0) =~= Seq::<CardRow>::empty());
    while i < rows.len()
        invariant
            i <= rows@.len(),
            newest_first(out@),
            out@.to_multiset() == rows_of_deck(rows@.take(i as int), deck_id).to_multiset(),
        decreases rows.len() - i,
    {
        let row = rows[i];
        assert(rows@.take(i + 1).drop_last() =~= rows@.take(i as int));
        assert(rows@.take(i + 1).last() == row);
        if row.deck_id == deck_id {
            let mut j: usize = 0;
            while j < out.len() && out[j].created_at >= row.created_at
                invariant
                    j <= out@.len(),
                    forall|k: int| 0 <= k < j ==> (#[trigger] out@[k]).created_at >= row.created_at,
                decreases out.len() - j,
            {
                j += 1;
            }
            let ghost before = out@;
            out.insert(j, row);
            assert(out@ == before.insert(j as int, row));
            let ghost prev_rows = rows_of_deck(rows@.take(i as int), deck_id);
            assert(rows_of_deck(rows@.take(i + 1), deck_id) == prev_rows.push(row));
            proof {
                to_multiset_build(prev_rows, row);
                to_multiset_insert(before, j as int, row);
            }
            assert(prev_rows.push(row).to_multiset() =~= prev_rows.to_multiset().insert(row));
            assert(out@.to_multiset() =~= before.to_multiset().insert(row));
            assert forall|a: int, b: int| 0 <= a < b < out@.len() implies (#[trigger] out@[a]).created_at >= (#[trigger] out@[b]).created_at by {
                if b < j {
                    assert(out@[a] == before[a] && out@[b] == before[b]);
                } else if b == j {
                    assert(out@[a] == before[a]);
                } else if a == j {
                    assert(out@[b] == before[b - 1]);
                    assert(before[j as int].created_at < row.created_at);
                    if b - 1 > j {
                        assert(before[j as int].created_at >= before[b - 1].created_at);
                    }
                } else if a < j {
                    assert(out@[a] == before[a] && out@[b] == before[b - 1]);
                } else {
                    assert(out@[a] == before[a - 1] && out@[b] == before[b - 1]);
                }
            }
        } else {
            assert(rows_of_deck(rows@.take(i + 1), deck_id) == rows_of_deck(rows@.take(i as int), deck_id));
        }
        i += 1;
    }
    assert(rows@.take(rows.len() as int) =~= rows@);
    out
}

pub open spec fn ids_of(rows: Seq<CardRow>) -> Seq<i64> {
    rows.map_values(|r: CardRow| r.id)
}

/// The identifiers of the deck's cards, newest first.
pub fn get_card_ids(rows: &Vec<CardRow>, deck_id: i64) -> (r: Vec<i64>)
    ensures
        exists|ordered: Seq<CardRow>|
            newest_first(ordered) && ordered.to_multiset() == rows_of_deck(rows@, deck_id).to_multiset()
                && r@ == ids_of(ordered),
{
    let ordered = order_card_rows(rows, deck_id);
    let mut ids: Vec<i64> = Vec::new();
    let mut i: usize = 0;
    while i < ordered.len()
        invariant
            i <= ordered@.len(),
            ids@.len() == i,
            forall|k: int| 0 <= k < i ==> ids@[k] == (#[trigger] ordered@[k]).id,
        decreases ordered.len() - i,
    {
        ids.push(ordered[i].id);
        i += 1;
    }
    assert(ids@ =~= ids_of(ordered@));
    ids
}

} // verus!
