//! Building the item pool of a level and dealing its items to the players.

use crate::catalog::{
    catalog_label, item_label, CATALOG_SIZE, MAX_VALUE_HIGH, MAX_VALUE_LOW,
};
use crate::chance::{gen_range, shuffle};
use crate::round::{Item, ItemView, PoolEntry, PoolEntryView, UserId, ITEMS_PER_PLAYER};
use crate::seqs::{
    lemma_deep_view_add, lemma_deep_view_push, lemma_deep_view_take, lemma_rearranged,
};
use rand::rngs::StdRng;
use vstd::prelude::*;

verus! {

/// The item that `user` gets out of a pool entry: switched off.
pub open spec fn item_from(entry: PoolEntryView, user: UserId) -> ItemView {
    ItemView { id: entry.0, label: entry.1, state: 0, user_id: user, max_value: entry.2 }
}

/// How many items leave a pool of `available` entries when `count` are asked for.
pub open spec fn taken(count: int, available: int) -> int {
    if count <= available {
        count
    } else {
        available
    }
}

/// The items one player is dealt: up to `count` entries from the end of the
/// pool, the last entry first.
pub open spec fn dealt_to(pool: Seq<PoolEntryView>, user: UserId, count: int) -> Seq<ItemView> {
    Seq::new(
        taken(count, pool.len() as int) as nat,
        |k: int| item_from(pool[pool.len() - 1 - k], user),
    )
}

/// The items all players are dealt: the pool is used up from its end, and
/// each player in turn gets the next `ITEMS_PER_PLAYER` entries while any are
/// left.
pub open spec fn dealt(players: Seq<UserId>, pool: Seq<PoolEntryView>) -> Seq<ItemView> {
    Seq::new(
        taken(ITEMS_PER_PLAYER * players.len(), pool.len() as int) as nat,
        |k: int| item_from(pool[pool.len() - 1 - k], players[k / (ITEMS_PER_PLAYER as int)]),
    )
}

/// What is left of the pool once all players have been dealt their items.
pub open spec fn left_over(players: Seq<UserId>, pool: Seq<PoolEntryView>) -> Seq<PoolEntryView> {
    pool.take(pool.len() - taken(ITEMS_PER_PLAYER * players.len(), pool.len() as int))
}

/// A pool as a level starts with it: every catalogue entry once, in any
/// order, each with its catalogue label and a largest setting from
/// `MAX_VALUE_LOW` up to, but not including, `MAX_VALUE_HIGH`.
pub open spec fn fresh_pool(pool: Seq<PoolEntryView>) -> bool {
    &&& pool.len() == CATALOG_SIZE
    &&& forall|k: int|
        0 <= k < pool.len() ==> {
            let entry = #[trigger] pool[k];
            &&& entry.0 < CATALOG_SIZE
            &&& entry.1 == catalog_label(entry.0 as int)
            &&& MAX_VALUE_LOW <= entry.2 < MAX_VALUE_HIGH
        }
    &&& forall|i: int, j: int| 0 <= i < j < pool.len() ==> pool[i].0 != pool[j].0
}

/// Takes up to `count` entries from the end of the pool and makes them items
/// of `user_id`, switched off. A pool that runs out yields fewer items.
pub fn mk_items(user_id: UserId, count: usize, available_items: &mut Vec<PoolEntry>) -> (items:
    Vec<Item>)
    ensures
        items.deep_view() == dealt_to(old(available_items).deep_view(), user_id, count as int),
        final(available_items).deep_view() == old(available_items).deep_view().take(
            old(available_items)@.len() - taken(count as int, old(available_items)@.len() as int),
        ),
{
    let ghost pool = *available_items;
    let ghost total = pool@.len() as int;
    let mut items: Vec<Item> = Vec::new();
    let mut done: usize = 0;
    proof {
        assert(available_items@ =~= pool@.take(total));
        lemma_deep_view_take(pool, *available_items, total);
        assert(items.deep_view() =~= dealt_to(pool.deep_view(), user_id, 0));
    }
    while done < count
        invariant
            done <= count,
            total == pool@.len(),
            available_items@ == pool@.take(total - taken(done as int, total)),
            available_items.deep_view() == pool.deep_view().take(total - taken(done as int, total)),
            items.deep_view() == dealt_to(pool.deep_view(), user_id, done as int),
        decreases count - done,
    {
        let ghost before = items;
        let ghost rest = *available_items;
        match available_items.pop() {
            Some((item_id, label, max_value)) => {
                let item = Item { id: item_id, label, state: 0, user_id, max_value };
                items.push(item);
                proof {
                    assert(done < total);
                    assert(available_items@ =~= pool@.take(total - taken(done + 1, total)));
                    lemma_deep_view_take(pool, *available_items, total - taken(done + 1, total));
                    lemma_deep_view_push(before, items, item);
                    assert(rest@[rest@.len() - 1] == pool@[total - 1 - done]);
                    assert(item.deep_view() == item_from(
                        pool.deep_view()[total - 1 - done],
                        user_id,
                    ));
                    assert(items.deep_view() =~= dealt_to(pool.deep_view(), user_id, done + 1));
                }
            },
            None => {
                proof {
                    assert(total <= done);
                    assert(items.deep_view() =~= dealt_to(pool.deep_view(), user_id, done + 1));
                }
            },
        }
        done += 1;
    }
    items
}

/// Deals every player, in turn, `ITEMS_PER_PLAYER` items from the end of the
/// pool. Once the pool has run out the remaining players get nothing.
pub fn deal_items(players: &Vec<UserId>, available_items: &mut Vec<PoolEntry>) -> (items: Vec<
    Item,
>)
    ensures
        items.deep_view() == dealt(players@, old(available_items).deep_view()),
        final(available_items).deep_view() == left_over(
            players@,
            old(available_items).deep_view(),
        ),
{
    let ghost pool = old(available_items).deep_view();
    let ghost total = pool.len() as int;
    let mut items: Vec<Item> = Vec::new();
    let mut i: usize = 0;
    proof {
        assert(players@.take(0) =~= Seq::empty());
        assert(items.deep_view() =~= dealt(players@.take(0), pool));
        assert(available_items.deep_view() =~= left_over(players@.take(0), pool));
    }
    while i < players.len()
        invariant
            i <= players.len(),
            total == pool.len(),
            items.deep_view() == dealt(players@.take(i as int), pool),
            available_items.deep_view() == left_over(players@.take(i as int), pool),
        decreases players.len() - i,
    {
        let ghost front = items;
        let ghost rest = available_items.deep_view();
        let mut batch = mk_items(players[i], ITEMS_PER_PLAYER, available_items);
        let ghost back = batch;
        items.append(&mut batch);
        proof {
            lemma_deep_view_add(front, back, items);
            lemma_dealt_step(players@, pool, i as int);
            assert(back.deep_view() =~= dealt_to(rest, players@[i as int], ITEMS_PER_PLAYER as int));
        }
        i += 1;
    }
    assert(players@.take(players@.len() as int) =~= players@);
    items
}

/// Dealing to one player more adds that player's items behind those of the
/// players before, and shortens what is left of the pool by as much.
pub proof fn lemma_dealt_step(players: Seq<UserId>, pool: Seq<PoolEntryView>, i: int)
    requires
        0 <= i < players.len(),
    ensures
        dealt(players.take(i + 1), pool) == dealt(players.take(i), pool) + dealt_to(
            left_over(players.take(i), pool),
            players[i],
            ITEMS_PER_PLAYER as int,
        ),
        left_over(players.take(i + 1), pool) == left_over(players.take(i), pool).take(
            left_over(players.take(i), pool).len() - taken(
                ITEMS_PER_PLAYER as int,
                left_over(players.take(i), pool).len() as int,
            ),
        ),
{
    let total = pool.len() as int;
    let fewer = players.take(i);
    let more = players.take(i + 1);
    let rest = left_over(fewer, pool);
    let joined = dealt(fewer, pool) + dealt_to(rest, players[i], ITEMS_PER_PLAYER as int);
    assert(fewer.len() == i);
    assert(more.len() == i + 1);
    assert(dealt(more, pool).len() == joined.len());
    assert forall|k: int| 0 <= k < joined.len() implies dealt(more, pool)[k] == joined[k] by {
        if k < dealt(fewer, pool).len() {
            assert(k / 4 < i);
            assert(more[k / 4] == fewer[k / 4]);
        } else {
            assert(ITEMS_PER_PLAYER * i <= total);
            assert(k / 4 == i);
            assert(more[k / 4] == players[i]);
            assert(rest[rest.len() - 1 - (k - 4 * i)] == pool[total - 1 - k]);
        }
    }
    assert(dealt(more, pool) =~= joined);
    assert(left_over(more, pool) =~= rest.take(
        rest.len() - taken(ITEMS_PER_PLAYER as int, rest.len() as int),
    ));
}

/// Builds the pool a level starts with: one entry for every catalogue item,
/// each with a largest setting drawn at random, the entries then shuffled.
pub fn build_pool(rng: &mut StdRng) -> (pool: Vec<PoolEntry>)
    ensures
        fresh_pool(pool.deep_view()),
{
    let mut pool: Vec<PoolEntry> = Vec::new();
    let mut id: usize = 0;
    while id < CATALOG_SIZE
        invariant
            id <= CATALOG_SIZE,
            pool@.len() == id,
            forall|k: int|
                0 <= k < id ==> {
                    let entry = #[trigger] pool@[k];
                    &&& entry.0 == k
                    &&& entry.1@ == catalog_label(k)
                    &&& MAX_VALUE_LOW <= entry.2 < MAX_VALUE_HIGH
                },
        decreases CATALOG_SIZE - id,
    {
        let label = item_label(id);
        let max_value = gen_range(rng, MAX_VALUE_LOW, MAX_VALUE_HIGH);
        pool.push((id, label, max_value));
        id += 1;
    }
    let ghost ordered = pool@;
    shuffle(&mut pool, rng);
    proof {
        assert(ordered.no_duplicates());
        lemma_rearranged(ordered, pool@);
        let shuffled = pool.deep_view();
        assert forall|k: int| 0 <= k < shuffled.len() implies {
            let entry = #[trigger] shuffled[k];
            &&& entry.0 < CATALOG_SIZE
            &&& entry.1 == catalog_label(entry.0 as int)
            &&& MAX_VALUE_LOW <= entry.2 < MAX_VALUE_HIGH
        } by {
            assert(ordered.contains(pool@[k]));
        }
        assert forall|i: int, j: int| 0 <= i < j < shuffled.len() implies shuffled[i].0
            != shuffled[j].0 by {
            assert(ordered.contains(pool@[i]));
            assert(ordered.contains(pool@[j]));
            assert(pool@[i] != pool@[j]);
        }
    }
    pool
}

} // verus!
