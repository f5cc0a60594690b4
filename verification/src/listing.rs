//! Listings in the order of a text key. Items with the same key stay in the
//! order in which they came.

use crate::text::{in_order, lemma_precedes_reflexive, lemma_precedes_total,
    lemma_precedes_transitive, precedes};
use vstd::prelude::*;

verus! {

/// Something that is listed under a text key.
pub trait Keyed: Sized {
    /// The key under which the item is listed.
    spec fn key(&self) -> Seq<char>;

    /// The characters of the key.
    fn key_chars(&self) -> (chars: Vec<char>)
        ensures
            chars@ == self.key(),
    ;
}

/// Whether the keys of the items never go down.
pub open spec fn in_key_order<T: Keyed>(items: Seq<T>) -> bool {
    forall|i: int, j: int|
        0 <= i <= j < items.len() ==> precedes((#[trigger] items[i]).key(), (#[trigger] items[j]).key())
}

/// The test for an item with the given key.
pub open spec fn has_key<T: Keyed>(key: Seq<char>) -> spec_fn(T) -> bool {
    |item: T| item.key() == key
}

/// The place of a new item in a listing: behind the last item whose key does
/// not come after its own.
pub open spec fn place_of<T: Keyed>(listing: Seq<T>, item: T) -> int
    decreases listing.len(),
{
    if listing.len() == 0 {
        0
    } else if precedes(listing.last().key(), item.key()) {
        listing.len() as int
    } else {
        place_of(listing.drop_last(), item)
    }
}

/// The items in the order of their keys: each item is put in its place among
/// those that came before it.
pub open spec fn sorted_by_key<T: Keyed>(items: Seq<T>) -> Seq<T>
    decreases items.len(),
{
    if items.len() == 0 {
        Seq::empty()
    } else {
        let listing = sorted_by_key(items.drop_last());
        listing.insert(place_of(listing, items.last()), items.last())
    }
}

/// The place of a new item is behind every item that does not come after
/// it, and before every item that does.
pub proof fn lemma_place_of<T: Keyed>(listing: Seq<T>, item: T)
    ensures
        0 <= place_of(listing, item) <= listing.len(),
        place_of(listing, item) > 0 ==> precedes(
            listing[place_of(listing, item) - 1].key(),
            item.key(),
        ),
        forall|k: int|
            place_of(listing, item) <= k < listing.len() ==> !precedes(
                (#[trigger] listing[k]).key(),
                item.key(),
            ),
    decreases listing.len(),
{
    if listing.len() > 0 && !precedes(listing.last().key(), item.key()) {
        lemma_place_of(listing.drop_last(), item);
        let place = place_of(listing, item);
        assert forall|k: int| place <= k < listing.len() implies !precedes(
            (#[trigger] listing[k]).key(),
            item.key(),
        ) by {
            if k < listing.len() - 1 {
                assert(listing.drop_last()[k] == listing[k]);
            }
        }
    }
}

/// Putting an item in its place keeps a listing in order, adds the item and
/// nothing else, and puts it behind the items with the same key.
proof fn lemma_insert<T: Keyed>(listing: Seq<T>, item: T, key: Seq<char>)
    requires
        in_key_order(listing),
    ensures
        in_key_order(listing.insert(place_of(listing, item), item)),
        listing.insert(place_of(listing, item), item).to_multiset() == listing.to_multiset().insert(
            item,
        ),
        listing.insert(place_of(listing, item), item).filter(has_key(key)) == listing.push(
            item,
        ).filter(has_key(key)),
{
    let place = place_of(listing, item);
    let grown = listing.insert(place, item);
    lemma_place_of(listing, item);
    vstd::seq_lib::to_multiset_insert(listing, place, item);
    assert forall|i: int, j: int| 0 <= i <= j < grown.len() implies precedes(
        (#[trigger] grown[i]).key(),
        (#[trigger] grown[j]).key(),
    ) by {
        lemma_precedes_reflexive(item.key());
        if i < place && j == place {
            lemma_precedes_transitive(listing[i].key(), listing[place - 1].key(), item.key());
        } else if i == place && j > place {
            lemma_precedes_total(listing[j - 1].key(), item.key());
        }
    }
    let wanted = has_key::<T>(key);
    let front = listing.take(place);
    let back = listing.skip(place);
    assert(listing.push(item) =~= front + back.push(item));
    Seq::lemma_filter_push(front, item, wanted);
    Seq::lemma_filter_push(back, item, wanted);
    if item.key() == key {
        back.lemma_all_neg_filter_empty(wanted);
    }
}

/// What sorting by key gives: the same items, with keys that never go down,
/// and for every key the items that have it in the order in which they came.
pub proof fn lemma_sorted_by_key<T: Keyed>(items: Seq<T>)
    ensures
        in_key_order(sorted_by_key(items)),
        sorted_by_key(items).to_multiset() == items.to_multiset(),
        sorted_by_key(items).len() == items.len(),
        forall|key: Seq<char>| #[trigger]
            sorted_by_key(items).filter(has_key(key)) == items.filter(has_key(key)),
    decreases items.len(),
{
    if items.len() == 0 {
        assert(items =~= Seq::<T>::empty());
    } else {
        let before = items.drop_last();
        let listing = sorted_by_key(before);
        let item = items.last();
        lemma_sorted_by_key(before);
        lemma_place_of(listing, item);
        assert(items =~= before.push(item));
        vstd::seq_lib::to_multiset_build(before, item);
        assert forall|key: Seq<char>| #[trigger]
            sorted_by_key(items).filter(has_key(key)) == items.filter(has_key(key)) by {
            lemma_insert(listing, item, key);
            Seq::lemma_filter_push(listing, item, has_key(key));
            Seq::lemma_filter_push(before, item, has_key(key));
        }
        lemma_insert(listing, item, Seq::empty());
    }
}

/// Whether the key of `item` comes after `key`.
fn comes_after<T: Keyed>(item: &T, key: &Vec<char>) -> (after: bool)
    ensures
        after == !precedes(item.key(), key@),
{
    let own = item.key_chars();
    !in_order(&own, key)
}

/// Sorts the items by their keys. Items with the same key stay in the order
/// in which they came.
pub fn sort_by_key<T: Keyed>(items: Vec<T>) -> (sorted: Vec<T>)
    ensures
        sorted@ == sorted_by_key(items@),
{
    let mut sorted: Vec<T> = Vec::new();
    for item in it: items
        invariant
            it.seq() == items@,
            sorted@ == sorted_by_key(it.seq().take(it.index() as int)),
    {
        let key = item.key_chars();
        let mut place: usize = sorted.len();
        assert(sorted@.take(place as int) =~= sorted@);
        while place > 0 && comes_after(&sorted[place - 1], &key)
            invariant
                place <= sorted.len(),
                key@ == item.key(),
                place_of(sorted@, item) == place_of(sorted@.take(place as int), item),
            decreases place,
        {
            assert(sorted@.take(place as int).drop_last() =~= sorted@.take(place - 1));
            place -= 1;
        }
        proof {
            assert(it.seq().take(it.index() + 1).drop_last() =~= it.seq().take(it.index() as int));
        }
        sorted.insert(place, item);
    }
    assert(items@.take(items@.len() as int) =~= items@);
    sorted
}

} // verus!
