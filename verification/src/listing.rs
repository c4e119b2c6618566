//! The listing model: one row per decodable entry, in archive order.

use vstd::prelude::*;

use crate::archive::EntryModel;
use crate::mtime::{entry_mtime, ModTime};

verus! {

/// One row of an archive listing.
#[derive(Debug, PartialEq, Eq)]
pub struct ListingRow {
    pub name: String,
    pub size: u64,
    pub modified: ModTime,
}

/// The model of one listing row.
pub struct RowModel {
    pub name: Seq<char>,
    pub size: u64,
    pub modified: ModTime,
}

/// The model of a row value.
pub open spec fn row_model(r: ListingRow) -> RowModel {
    RowModel { name: r.name@, size: r.size, modified: r.modified }
}

/// The row of one decodable entry: its name, declared uncompressed size, and
/// resolved modification time.
pub open spec fn entry_row(e: EntryModel) -> RowModel {
    RowModel { name: e.name, size: e.size, modified: entry_mtime(e.extra, e.dos_time) }
}

/// The listing of a sequence of entries: one row per decodable entry, in
/// entry order. Undecodable entries are silently skipped; names are neither
/// sorted nor deduplicated.
pub open spec fn listing_spec(entries: Seq<EntryModel>) -> Seq<RowModel>
    decreases entries.len(),
{
    if entries.len() == 0 {
        Seq::empty()
    } else {
        let rest = listing_spec(entries.drop_first());
        if entries[0].decodable {
            seq![entry_row(entries[0])] + rest
        } else {
            rest
        }
    }
}

/// The number of decodable entries.
pub open spec fn decodable_count(entries: Seq<EntryModel>) -> nat
    decreases entries.len(),
{
    if entries.len() == 0 {
        0
    } else {
        (if entries[0].decodable {
            1nat
        } else {
            0nat
        }) + decodable_count(entries.drop_first())
    }
}

/// A listing holds exactly one row per decodable entry.
pub proof fn lemma_listing_count(entries: Seq<EntryModel>)
    ensures
        listing_spec(entries).len() == decodable_count(entries),
    decreases entries.len(),
{
    if entries.len() > 0 {
        lemma_listing_count(entries.drop_first());
    }
}

/// Listing the entries of two runs one after the other lists the rows of the
/// first run followed by the rows of the second.
pub proof fn lemma_listing_append(xs: Seq<EntryModel>, ys: Seq<EntryModel>)
    ensures
        listing_spec(xs + ys) == listing_spec(xs) + listing_spec(ys),
    decreases xs.len(),
{
    if xs.len() == 0 {
        assert(xs + ys =~= ys);
        assert(listing_spec(xs) + listing_spec(ys) =~= listing_spec(ys));
    } else {
        assert((xs + ys).drop_first() =~= xs.drop_first() + ys);
        assert((xs + ys)[0] == xs[0]);
        lemma_listing_append(xs.drop_first(), ys);
        if xs[0].decodable {
            assert(seq![entry_row(xs[0])] + (listing_spec(xs.drop_first()) + listing_spec(ys))
                =~= (seq![entry_row(xs[0])] + listing_spec(xs.drop_first())) + listing_spec(ys));
        }
    }
}

/// A listing is exactly the decodable entries, in archive order, each mapped
/// to its row: rows keep the entries' order.
pub proof fn lemma_listing_order(entries: Seq<EntryModel>)
    ensures
        listing_spec(entries) == entries.filter(|e: EntryModel| e.decodable).map_values(
            |e: EntryModel| entry_row(e),
        ),
    decreases entries.len(),
{
    let pred = |e: EntryModel| e.decodable;
    let to_row = |e: EntryModel| entry_row(e);
    if entries.len() == 0 {
        assert(entries.filter(pred) =~= Seq::<EntryModel>::empty());
        assert(entries.filter(pred).map_values(to_row) =~= Seq::<RowModel>::empty());
    } else {
        let xs = entries.drop_last();
        let x = entries.last();
        lemma_listing_order(xs);
        assert(entries =~= xs + seq![x]);
        lemma_listing_append(xs, seq![x]);
        assert(seq![x].drop_first() =~= Seq::<EntryModel>::empty());
        reveal_with_fuel(Seq::filter, 2);
        reveal_with_fuel(listing_spec, 2);
        assert(entries.filter(pred) == if pred(x) {
            xs.filter(pred).push(x)
        } else {
            xs.filter(pred)
        });
        if x.decodable {
            assert(listing_spec(seq![x]) =~= seq![entry_row(x)]);
            assert(xs.filter(pred).push(x).map_values(to_row) =~= xs.filter(pred).map_values(
                to_row,
            ).push(entry_row(x)));
            assert(listing_spec(xs) + seq![entry_row(x)] =~= listing_spec(xs).push(entry_row(x)));
        } else {
            assert(listing_spec(seq![x]) =~= Seq::<RowModel>::empty());
            assert(listing_spec(xs) + Seq::<RowModel>::empty() =~= listing_spec(xs));
        }
    }
}

/// Unfold the listing one entry at a time, front to back.
pub proof fn lemma_listing_step(entries: Seq<EntryModel>, i: int)
    requires
        0 <= i < entries.len(),
    ensures
        listing_spec(entries.skip(i)) == if entries[i].decodable {
            seq![entry_row(entries[i])] + listing_spec(entries.skip(i + 1))
        } else {
            listing_spec(entries.skip(i + 1))
        },
{
    assert(entries.skip(i).drop_first() =~= entries.skip(i + 1));
    assert(entries.skip(i)[0] == entries[i]);
}

} // verus!
