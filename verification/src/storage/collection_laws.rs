//! What the vector and the queue hold, as sequences, and how their
//! operations act on those sequences.

use vstd::prelude::*;
use crate::bytes::{le_bytes, lemma_le_bytes_len, lemma_le_value_of_bytes, lemma_pow256_values};
use crate::error::StdError;
use super::base::StorageView;
use super::queue::{
    ends_bytes, popped_back, popped_front, pushed_back, pushed_front, stored_ends, with_ends,
    QueueEnds, QueueView,
};
use super::vec::{
    extended, inserted, lemma_slot_key, lemma_slot_keys_differ, popped, pushed, ring_back,
    ring_distance, ring_forward, shifted_down, shifted_up, slot, slot_key, slots_filled, stored_len, with_len,
    with_slot, without_slot, IndexedView,
};
use super::SerializableItem;

verus! {

/// What a vector of `len` elements under `namespace` holds: for each index
/// the bytes in its slot, or `None` for an empty slot.
pub open spec fn vec_items(records: Map<Seq<u8>, Seq<u8>>, namespace: Seq<u8>, len: u32) -> Seq<
    Option<Seq<u8>>,
> {
    Seq::new(len as nat, |i: int| slot(records, namespace, i as u32))
}

/// What the slots hold that an iterator has yet to hand out, from its front
/// to its back.
pub open spec fn iter_items(records: Map<Seq<u8>, Seq<u8>>, it: IndexedView) -> Seq<
    Option<Seq<u8>>,
> {
    Seq::new(
        ring_distance(it.start, it.end),
        |i: int| slot(records, it.namespace, ring_forward(it.start, i as nat)),
    )
}

/// What a queue holds, from its front to its back.
pub open spec fn queue_items(records: Map<Seq<u8>, Seq<u8>>, q: QueueView) -> Seq<
    Option<Seq<u8>>,
> {
    iter_items(
        records,
        IndexedView { namespace: q.namespace, start: q.ends.front, end: q.ends.back },
    )
}

/// The encodings of values that all have one.
pub open spec fn encodings<V: SerializableItem>(items: Seq<V::V>) -> Seq<Option<Seq<u8>>> {
    Seq::new(items.len(), |i: int| V::encoding(items[i]))
}

/// Every value of `items` has an encoding.
pub open spec fn all_encode<V: SerializableItem>(items: Seq<V::V>) -> bool {
    forall|i: int| 0 <= i < items.len() ==> (#[trigger] V::encoding(items[i])).is_some()
}

/// The length that a vector keeps is the length that is read back.
pub proof fn lemma_stored_len_of_with_len(s: StorageView, namespace: Seq<u8>, len: u32)
    ensures
        stored_len(with_len(s, namespace, len).records, namespace) == len,
        forall|index: u32|
            slot(with_len(s, namespace, len).records, namespace, index) == slot(
                s.records,
                namespace,
                index,
            ),
{
    lemma_le_bytes_len(len as nat, 4);
    lemma_pow256_values();
    lemma_le_value_of_bytes(len as nat, 4);
    assert forall|index: u32|
        slot(with_len(s, namespace, len).records, namespace, index) == slot(
            s.records,
            namespace,
            index,
        ) by {
        lemma_slot_key(namespace, index);
    }
}

/// Writing one slot changes what that slot holds, and no other.
pub proof fn lemma_slot_of_with_slot(
    s: StorageView,
    namespace: Seq<u8>,
    index: u32,
    bytes: Seq<u8>,
    other: u32,
)
    ensures
        slot(with_slot(s, namespace, index, bytes).records, namespace, other) == (if other
            == index {
            Some(bytes)
        } else {
            slot(s.records, namespace, other)
        }),
{
    if other != index {
        lemma_slot_keys_differ(namespace, other, index);
    }
}

/// Emptying one slot empties that slot, and no other.
pub proof fn lemma_slot_of_without_slot(
    s: StorageView,
    namespace: Seq<u8>,
    index: u32,
    other: u32,
)
    ensures
        slot(without_slot(s, namespace, index).records, namespace, other) == (if other == index {
            None
        } else {
            slot(s.records, namespace, other)
        }),
{
    if other != index {
        lemma_slot_keys_differ(namespace, other, index);
    }
}

/// **A push appends.** After a push onto a vector with room, the vector
/// holds what it held, followed by the pushed bytes, and the length that
/// the store keeps is one more.
pub proof fn lemma_push_appends(s: StorageView, namespace: Seq<u8>, len: u32, bytes: Seq<u8>)
    requires
        len < u32::MAX,
    ensures
        stored_len(pushed(s, namespace, len, bytes).records, namespace) == len + 1,
        vec_items(pushed(s, namespace, len, bytes).records, namespace, (len + 1) as u32)
            == vec_items(s.records, namespace, len).push(Some(bytes)),
{
    let written = with_slot(s, namespace, len, bytes);
    let after = pushed(s, namespace, len, bytes);
    lemma_stored_len_of_with_len(written, namespace, (len + 1) as u32);
    assert forall|i: int| 0 <= i < len + 1 implies #[trigger] vec_items(
        after.records,
        namespace,
        (len + 1) as u32,
    )[i] == vec_items(s.records, namespace, len).push(Some(bytes))[i] by {
        lemma_slot_of_with_slot(s, namespace, len, bytes, i as u32);
    }
    assert(vec_items(after.records, namespace, (len + 1) as u32) =~= vec_items(
        s.records,
        namespace,
        len,
    ).push(Some(bytes)));
}

/// **An insertion moves what follows up by one.** After an insertion at
/// `index` into a vector with room whose slots from `index` on are filled,
/// the vector holds what it held before `index`, then the inserted bytes,
/// then what it held from `index` on; nothing is lost, and the length that
/// the store keeps is one more.
pub proof fn lemma_insert_moves_up(
    s: StorageView,
    namespace: Seq<u8>,
    index: u32,
    len: u32,
    bytes: Seq<u8>,
)
    requires
        index <= len,
        len < u32::MAX,
        slots_filled(s.records, namespace, index as int, len as int),
    ensures
        stored_len(inserted(s, namespace, index, len, bytes).records, namespace) == len + 1,
        vec_items(inserted(s, namespace, index, len, bytes).records, namespace, (len + 1) as u32)
            == vec_items(s.records, namespace, len).take(index as int).push(Some(bytes))
            + vec_items(s.records, namespace, len).skip(index as int),
{
    let shifted = shifted_up(s, namespace, index as int, len as int);
    let written = with_slot(shifted, namespace, index, bytes);
    let after = inserted(s, namespace, index, len, bytes);
    let before = vec_items(s.records, namespace, len);
    let expected = before.take(index as int).push(Some(bytes)) + before.skip(index as int);
    lemma_stored_len_of_with_len(written, namespace, (len + 1) as u32);
    assert forall|i: int| 0 <= i < len + 1 implies #[trigger] vec_items(
        after.records,
        namespace,
        (len + 1) as u32,
    )[i] == expected[i] by {
        lemma_slot_of_with_slot(shifted, namespace, index, bytes, i as u32);
        lemma_slot_key(namespace, i as u32);
        if i > index {
            lemma_slot_key(namespace, (i - 1) as u32);
            assert(s.records.contains_key(slot_key(namespace, (i - 1) as u32)));
            assert(expected[i] == before[i - 1]);
        } else if i < index {
            assert(expected[i] == before[i]);
        }
    }
    assert(vec_items(after.records, namespace, (len + 1) as u32) =~= expected);
}

/// **A removal moves what follows down by one.** After the element at
/// `index` is taken out of a vector whose slots above `index` are filled,
/// the vector holds what it held without that element, in the same order,
/// and the length that the store keeps is one less.
pub proof fn lemma_remove_moves_down(s: StorageView, namespace: Seq<u8>, index: u32, len: u32)
    requires
        index < len,
        slots_filled(s.records, namespace, index + 1, len as int),
    ensures
        stored_len(
            popped(shifted_down(s, namespace, index as int, len - 1), namespace, len).records,
            namespace,
        ) == len - 1,
        vec_items(
            popped(shifted_down(s, namespace, index as int, len - 1), namespace, len).records,
            namespace,
            (len - 1) as u32,
        ) == vec_items(s.records, namespace, len).remove(index as int),
{
    let last = (len - 1) as u32;
    let shifted = shifted_down(s, namespace, index as int, len - 1);
    let emptied = without_slot(shifted, namespace, last);
    let after = popped(shifted, namespace, len);
    let before = vec_items(s.records, namespace, len);
    lemma_stored_len_of_with_len(emptied, namespace, last);
    assert forall|i: int| 0 <= i < len - 1 implies #[trigger] vec_items(
        after.records,
        namespace,
        last,
    )[i] == before.remove(index as int)[i] by {
        lemma_slot_of_without_slot(shifted, namespace, last, i as u32);
        lemma_slot_key(namespace, i as u32);
        if i >= index {
            lemma_slot_key(namespace, (i + 1) as u32);
            assert(s.records.contains_key(slot_key(namespace, (i + 1) as u32)));
            assert(before.remove(index as int)[i] == before[i + 1]);
        } else {
            assert(before.remove(index as int)[i] == before[i]);
        }
    }
    assert(vec_items(after.records, namespace, last) =~= before.remove(index as int));
}

/// **A pop takes the last element off.** After a pop from a vector that is
/// not empty, the vector holds what it held without the last element, and
/// the length that the store keeps is one less.
pub proof fn lemma_pop_drops_last(s: StorageView, namespace: Seq<u8>, len: u32)
    requires
        len > 0,
    ensures
        stored_len(popped(s, namespace, len).records, namespace) == len - 1,
        vec_items(popped(s, namespace, len).records, namespace, (len - 1) as u32) == vec_items(
            s.records,
            namespace,
            len,
        ).drop_last(),
{
    let last = (len - 1) as u32;
    let emptied = without_slot(s, namespace, last);
    let after = popped(s, namespace, len);
    lemma_stored_len_of_with_len(emptied, namespace, last);
    assert forall|i: int| 0 <= i < len - 1 implies #[trigger] vec_items(
        after.records,
        namespace,
        last,
    )[i] == vec_items(s.records, namespace, len).drop_last()[i] by {
        lemma_slot_of_without_slot(s, namespace, last, i as u32);
    }
    assert(vec_items(after.records, namespace, last) =~= vec_items(
        s.records,
        namespace,
        len,
    ).drop_last());
}

/// **Pushes are observed in their order.** Appending items that all have an
/// encoding, to a vector with room for them, succeeds; the vector then
/// holds what it held, followed by the encodings of the items in the order
/// in which they were appended, and its length is greater by their number.
pub proof fn lemma_extend_appends<V: SerializableItem>(
    s: StorageView,
    namespace: Seq<u8>,
    len: u32,
    items: Seq<V::V>,
)
    requires
        all_encode::<V>(items),
        len + items.len() <= u32::MAX,
    ensures
        extended::<V>(s, namespace, len, items).1 == Ok::<u32, StdError>(
            (len + items.len()) as u32,
        ),
        vec_items(
            extended::<V>(s, namespace, len, items).0.records,
            namespace,
            (len + items.len()) as u32,
        ) == vec_items(s.records, namespace, len) + encodings::<V>(items),
    decreases items.len(),
{
    let before = vec_items(s.records, namespace, len);
    if items.len() == 0 {
        assert(before + encodings::<V>(items) =~= before);
    } else {
        let bytes = V::encoding(items[0]).unwrap();
        let written = with_slot(s, namespace, len, bytes);
        let rest = items.skip(1);
        assert(all_encode::<V>(rest)) by {
            assert forall|i: int| 0 <= i < rest.len() implies (#[trigger] V::encoding(
                rest[i],
            )).is_some() by {
                assert(rest[i] == items[i + 1]);
            }
        }
        lemma_extend_appends::<V>(written, namespace, (len + 1) as u32, rest);
        let end = (len + items.len()) as u32;
        let after = extended::<V>(s, namespace, len, items).0;
        assert(vec_items(written.records, namespace, (len + 1) as u32) =~= before.push(
            Some(bytes),
        )) by {
            assert forall|i: int| 0 <= i < len + 1 implies #[trigger] vec_items(
                written.records,
                namespace,
                (len + 1) as u32,
            )[i] == before.push(Some(bytes))[i] by {
                lemma_slot_of_with_slot(s, namespace, len, bytes, i as u32);
            }
        }
        assert(before.push(Some(bytes)) + encodings::<V>(rest) =~= before + encodings::<V>(items))
            by {
            assert forall|i: int| 0 <= i < rest.len() implies encodings::<V>(rest)[i]
                == encodings::<V>(items)[i + 1] by {
                assert(rest[i] == items[i + 1]);
            }
        }
    }
}

/// After `pops` pops, each from a vector that is not empty: the store and
/// the length.
pub open spec fn popped_times(s: StorageView, namespace: Seq<u8>, len: u32, pops: nat) -> (
    StorageView,
    u32,
)
    decreases pops,
{
    if pops == 0 || len == 0 {
        (s, len)
    } else {
        popped_times(popped(s, namespace, len), namespace, (len - 1) as u32, (pops - 1) as nat)
    }
}

/// Pops take the elements off from the end, one for each pop.
pub proof fn lemma_pops_take(s: StorageView, namespace: Seq<u8>, len: u32, pops: nat)
    requires
        pops <= len,
    ensures
        popped_times(s, namespace, len, pops).1 == len - pops,
        vec_items(
            popped_times(s, namespace, len, pops).0.records,
            namespace,
            (len - pops) as u32,
        ) == vec_items(s.records, namespace, len).take(len - pops),
        pops > 0 ==> stored_len(popped_times(s, namespace, len, pops).0.records, namespace) == len
            - pops,
    decreases pops,
{
    let before = vec_items(s.records, namespace, len);
    if pops == 0 {
        assert(before.take(len as int) =~= before);
    } else {
        lemma_pop_drops_last(s, namespace, len);
        lemma_pops_take(popped(s, namespace, len), namespace, (len - 1) as u32, (pops - 1) as nat);
        assert(before.drop_last().take(len - pops) =~= before.take(len - pops));
    }
}

/// **The length after pushes and pops.** A vector to which `items` are
/// appended and from which `pops` elements, no more than it then has, are
/// popped has its first length, plus the number of the items, minus the
/// number of the pops; and it holds the first that many of what it held
/// followed by the items.
pub proof fn lemma_len_after_pushes_and_pops<V: SerializableItem>(
    s: StorageView,
    namespace: Seq<u8>,
    len: u32,
    items: Seq<V::V>,
    pops: nat,
)
    requires
        all_encode::<V>(items),
        len + items.len() <= u32::MAX,
        pops <= len + items.len(),
    ensures
        extended::<V>(s, namespace, len, items).1 == Ok::<u32, StdError>(
            (len + items.len()) as u32,
        ),
        popped_times(
            with_len(
                extended::<V>(s, namespace, len, items).0,
                namespace,
                (len + items.len()) as u32,
            ),
            namespace,
            (len + items.len()) as u32,
            pops,
        ).1 == len + items.len() - pops,
        vec_items(
            popped_times(
                with_len(
                    extended::<V>(s, namespace, len, items).0,
                    namespace,
                    (len + items.len()) as u32,
                ),
                namespace,
                (len + items.len()) as u32,
                pops,
            ).0.records,
            namespace,
            (len + items.len() - pops) as u32,
        ) == (vec_items(s.records, namespace, len) + encodings::<V>(items)).take(
            len + items.len() - pops,
        ),
{
    let grown = (len + items.len()) as u32;
    let appended = extended::<V>(s, namespace, len, items).0;
    lemma_extend_appends::<V>(s, namespace, len, items);
    lemma_stored_len_of_with_len(appended, namespace, grown);
    assert(vec_items(with_len(appended, namespace, grown).records, namespace, grown) =~= vec_items(
        appended.records,
        namespace,
        grown,
    ));
    lemma_pops_take(with_len(appended, namespace, grown), namespace, grown, pops);
}

/// **The front of an iterator.** An iterator over slots that has not ended
/// hands out from the front what the first of its slots holds, and has the
/// others left.
pub proof fn lemma_iter_front(records: Map<Seq<u8>, Seq<u8>>, it: IndexedView)
    requires
        it.start != it.end,
    ensures
        iter_items(records, it)[0] == slot(records, it.namespace, it.start),
        iter_items(records, IndexedView { start: ring_forward(it.start, 1), ..it }) == iter_items(
            records,
            it,
        ).skip(1),
{
    let after = IndexedView { start: ring_forward(it.start, 1), ..it };
    assert(ring_forward(it.start, 0) == it.start);
    assert forall|i: int| 0 <= i < ring_distance(after.start, after.end) implies #[trigger] iter_items(
        records,
        after,
    )[i] == iter_items(records, it).skip(1)[i] by {
        assert(ring_forward(after.start, i as nat) == ring_forward(it.start, (i + 1) as nat));
    }
    assert(iter_items(records, after) =~= iter_items(records, it).skip(1));
}

/// **The back of an iterator.** An iterator over slots that has not ended
/// hands out from the back what the last of its slots holds, and has the
/// others left.
pub proof fn lemma_iter_back(records: Map<Seq<u8>, Seq<u8>>, it: IndexedView)
    requires
        it.start != it.end,
    ensures
        iter_items(records, it).last() == slot(records, it.namespace, ring_back(it.end, 1)),
        iter_items(records, IndexedView { end: ring_back(it.end, 1), ..it }) == iter_items(
            records,
            it,
        ).drop_last(),
{
    let after = IndexedView { end: ring_back(it.end, 1), ..it };
    assert(ring_forward(it.start, (ring_distance(it.start, it.end) - 1) as nat) == ring_back(
        it.end,
        1,
    ));
    assert(iter_items(records, after) =~= iter_items(records, it).drop_last());
}

/// **An iterator over a vector observes the vector.** The iterator from
/// slot zero to the length has the elements of the vector left, in their
/// order.
pub proof fn lemma_vec_iter_items(records: Map<Seq<u8>, Seq<u8>>, namespace: Seq<u8>, len: u32)
    ensures
        iter_items(records, IndexedView { namespace, start: 0, end: len }) == vec_items(
            records,
            namespace,
            len,
        ),
{
    assert(iter_items(records, IndexedView { namespace, start: 0, end: len }) =~= vec_items(
        records,
        namespace,
        len,
    ));
}

/// Steps in the ring add up.
pub proof fn lemma_ring_forward_adds(position: u32, a: nat, b: nat)
    ensures
        ring_forward(ring_forward(position, a), b) == ring_forward(position, a + b),
{
    let m = 0x1_0000_0000int;
    let x = position as int + a as int;
    assert(((x % m) + b as int) % m == (x + b as int) % m) by {
        vstd::arithmetic::div_mod::lemma_add_mod_noop(x, b as int, m);
        vstd::arithmetic::div_mod::lemma_add_mod_noop(x % m, b as int, m);
        vstd::arithmetic::div_mod::lemma_mod_twice(x, m);
    }
}

/// One step back and one step forward return to the position, and the
/// distance from a position grows by one with each step forward that does
/// not come round to it.
pub proof fn lemma_ring_steps(position: u32, other: u32)
    ensures
        ring_forward(ring_back(position, 1), 1) == position,
        ring_back(ring_forward(position, 1), 1) == position,
        ring_forward(position, 0) == position,
        ring_forward(other, 1) != position ==> ring_distance(position, ring_forward(other, 1))
            == ring_distance(position, other) + 1,
        position != other ==> ring_distance(ring_forward(position, 1), other) == ring_distance(
            position,
            other,
        ) - 1,
        position != other ==> ring_distance(position, ring_back(other, 1)) == ring_distance(
            position,
            other,
        ) - 1,
        ring_back(position, 1) != other ==> ring_distance(ring_back(position, 1), other)
            == ring_distance(position, other) + 1,
        forall|i: nat|
            i < ring_distance(position, other) ==> ring_distance(
                position,
                #[trigger] ring_forward(position, i),
            ) == i,
{
    assert forall|i: nat| i < ring_distance(position, other) implies ring_distance(
        position,
        #[trigger] ring_forward(position, i),
    ) == i by {
        if position + i >= 0x1_0000_0000 {
            assert(ring_forward(position, i) == position + i - 0x1_0000_0000);
        } else {
            assert(ring_forward(position, i) == position + i);
        }
    }
}

/// The slot at the distance from the front to the back is the back.
pub proof fn lemma_ring_back_of_distance(front: u32, back: u32)
    ensures
        ring_forward(front, ring_distance(front, back)) == back,
{
}

/// The cursors that a queue keeps are the cursors that are read back, and
/// keeping them changes no slot.
pub proof fn lemma_stored_ends_of_with_ends(s: StorageView, namespace: Seq<u8>, ends: QueueEnds)
    ensures
        stored_ends(with_ends(s, namespace, ends).records, namespace) == ends,
        forall|index: u32|
            slot(with_ends(s, namespace, ends).records, namespace, index) == slot(
                s.records,
                namespace,
                index,
            ),
{
    let data = ends_bytes(ends);
    lemma_pow256_values();
    lemma_le_bytes_len(ends.front as nat, 4);
    lemma_le_bytes_len(ends.back as nat, 4);
    lemma_le_value_of_bytes(ends.front as nat, 4);
    lemma_le_value_of_bytes(ends.back as nat, 4);
    assert(data.subrange(0, 4) =~= le_bytes(ends.front as nat, 4));
    assert(data.subrange(4, 8) =~= le_bytes(ends.back as nat, 4));
    assert forall|index: u32|
        slot(with_ends(s, namespace, ends).records, namespace, index) == slot(
            s.records,
            namespace,
            index,
        ) by {
        lemma_slot_key(namespace, index);
    }
}

/// **The length of a queue** is the back cursor minus the front cursor, in
/// wrapping arithmetic.
pub proof fn lemma_queue_len_is_wrapping_sub(q: QueueView)
    ensures
        q.len() == vstd::wrapping::u32_specs::wrapping_sub(q.ends.back, q.ends.front),
        q.len() <= u32::MAX,
        q.is_full() <==> q.len() == u32::MAX,
{
}

/// **A push at the back appends.** After a push at the back of a queue that
/// is not full, the queue holds what it held, followed by the pushed
/// bytes; it is one longer, and the store keeps its new cursors.
pub proof fn lemma_push_back_appends(s: StorageView, q: QueueView, bytes: Seq<u8>)
    requires
        !q.is_full(),
    ensures
        ({
            let after = QueueView {
                ends: QueueEnds { back: ring_forward(q.ends.back, 1), ..q.ends },
                ..q
            };
            &&& after.len() == q.len() + 1
            &&& stored_ends(pushed_back(s, q, bytes).records, q.namespace) == after.ends
            &&& queue_items(pushed_back(s, q, bytes).records, after) == queue_items(
                s.records,
                q,
            ).push(Some(bytes))
        }),
{
    let after = QueueView { ends: QueueEnds { back: ring_forward(q.ends.back, 1), ..q.ends }, ..q };
    let written = with_slot(s, q.namespace, q.ends.back, bytes);
    lemma_stored_ends_of_with_ends(written, q.namespace, after.ends);
    lemma_ring_steps(q.ends.front, q.ends.back);
    let records = pushed_back(s, q, bytes).records;
    let before = queue_items(s.records, q);
    assert(after.len() == q.len() + 1);
    assert forall|i: int| 0 <= i < after.len() implies #[trigger] queue_items(records, after)[i]
        == before.push(Some(bytes))[i] by {
        let at = ring_forward(q.ends.front, i as nat);
        lemma_slot_of_with_slot(s, q.namespace, q.ends.back, bytes, at);
        if i < q.len() {
            assert(ring_distance(q.ends.front, at) == i);
            assert(at != q.ends.back);
        } else {
            lemma_ring_back_of_distance(q.ends.front, q.ends.back);
        }
    }
    assert(queue_items(records, after) =~= before.push(Some(bytes)));
}

/// **A push at the front prepends.** After a push at the front of a queue
/// that is not full, the queue holds the pushed bytes, followed by what it
/// held; it is one longer, and the store keeps its new cursors.
pub proof fn lemma_push_front_prepends(s: StorageView, q: QueueView, bytes: Seq<u8>)
    requires
        !q.is_full(),
    ensures
        ({
            let after = QueueView {
                ends: QueueEnds { front: ring_back(q.ends.front, 1), ..q.ends },
                ..q
            };
            &&& after.len() == q.len() + 1
            &&& stored_ends(pushed_front(s, q, bytes).records, q.namespace) == after.ends
            &&& queue_items(pushed_front(s, q, bytes).records, after) == seq![Some(bytes)]
                + queue_items(s.records, q)
        }),
{
    let first = ring_back(q.ends.front, 1);
    let after = QueueView { ends: QueueEnds { front: first, ..q.ends }, ..q };
    let written = with_slot(s, q.namespace, first, bytes);
    lemma_stored_ends_of_with_ends(written, q.namespace, after.ends);
    lemma_ring_steps(q.ends.front, q.ends.back);
    lemma_ring_steps(first, q.ends.back);
    let records = pushed_front(s, q, bytes).records;
    let before = queue_items(s.records, q);
    assert(first != q.ends.back) by {
        if first == q.ends.back {
            assert(ring_forward(q.ends.back, 1) == q.ends.front);
        }
    }
    assert(after.len() == q.len() + 1);
    assert forall|i: int| 0 <= i < after.len() implies #[trigger] queue_items(records, after)[i]
        == (seq![Some(bytes)] + before)[i] by {
        let at = ring_forward(first, i as nat);
        lemma_slot_of_with_slot(s, q.namespace, first, bytes, at);
        if i > 0 {
            lemma_ring_forward_adds(first, 1, (i - 1) as nat);
            assert(at == ring_forward(q.ends.front, (i - 1) as nat));
            assert(ring_distance(first, at) == i);
            assert(at != first);
        }
    }
    assert(queue_items(records, after) =~= seq![Some(bytes)] + before);
}

/// **A pop at the back takes the last element off.** After a pop at the
/// back of a queue that is not empty, the queue holds what it held without
/// the last element; it is one shorter, and the store keeps its new
/// cursors.
pub proof fn lemma_pop_back_drops_last(s: StorageView, q: QueueView)
    requires
        q.len() > 0,
    ensures
        ({
            let after = QueueView {
                ends: QueueEnds { back: ring_back(q.ends.back, 1), ..q.ends },
                ..q
            };
            &&& after.len() == q.len() - 1
            &&& stored_ends(popped_back(s, q).records, q.namespace) == after.ends
            &&& queue_items(popped_back(s, q).records, after) == queue_items(
                s.records,
                q,
            ).drop_last()
        }),
{
    let last = ring_back(q.ends.back, 1);
    let after = QueueView { ends: QueueEnds { back: last, ..q.ends }, ..q };
    let emptied = without_slot(s, q.namespace, last);
    lemma_stored_ends_of_with_ends(emptied, q.namespace, after.ends);
    lemma_ring_steps(q.ends.front, q.ends.back);
    lemma_ring_steps(q.ends.front, last);
    let records = popped_back(s, q).records;
    let before = queue_items(s.records, q);
    assert(after.len() == q.len() - 1);
    assert forall|i: int| 0 <= i < after.len() implies #[trigger] queue_items(records, after)[i]
        == before.drop_last()[i] by {
        let at = ring_forward(q.ends.front, i as nat);
        lemma_slot_of_without_slot(s, q.namespace, last, at);
        assert(ring_distance(q.ends.front, at) == i);
        assert(at != last);
    }
    assert(queue_items(records, after) =~= before.drop_last());
}

/// **A pop at the front takes the first element off.** After a pop at the
/// front of a queue that is not empty, the queue holds what it held without
/// the first element; it is one shorter, and the store keeps its new
/// cursors.
pub proof fn lemma_pop_front_drops_first(s: StorageView, q: QueueView)
    requires
        q.len() > 0,
    ensures
        ({
            let after = QueueView {
                ends: QueueEnds { front: ring_forward(q.ends.front, 1), ..q.ends },
                ..q
            };
            &&& after.len() == q.len() - 1
            &&& stored_ends(popped_front(s, q).records, q.namespace) == after.ends
            &&& queue_items(popped_front(s, q).records, after) == queue_items(s.records, q).skip(
                1,
            )
        }),
{
    let second = ring_forward(q.ends.front, 1);
    let after = QueueView { ends: QueueEnds { front: second, ..q.ends }, ..q };
    let emptied = without_slot(s, q.namespace, q.ends.front);
    lemma_stored_ends_of_with_ends(emptied, q.namespace, after.ends);
    lemma_ring_steps(q.ends.front, q.ends.back);
    let records = popped_front(s, q).records;
    let before = queue_items(s.records, q);
    assert(after.len() == q.len() - 1);
    assert forall|i: int| 0 <= i < after.len() implies #[trigger] queue_items(records, after)[i]
        == before.skip(1)[i] by {
        let at = ring_forward(second, i as nat);
        lemma_ring_forward_adds(q.ends.front, 1, i as nat);
        assert(at == ring_forward(q.ends.front, (i + 1) as nat));
        lemma_slot_of_without_slot(s, q.namespace, q.ends.front, at);
        assert(ring_distance(q.ends.front, at) == i + 1);
        assert(at != q.ends.front);
    }
    assert(queue_items(records, after) =~= before.skip(1));
}

/// An operation at one of the two ends of a queue.
pub enum QueueOp {
    PushBack(Seq<u8>),
    PushFront(Seq<u8>),
    PopBack,
    PopFront,
}

/// The queue after an operation: a push onto a full queue and a pop from
/// an empty one leave it as it is.
pub open spec fn queue_after(s: StorageView, q: QueueView, op: QueueOp) -> (
    StorageView,
    QueueView,
) {
    match op {
        QueueOp::PushBack(bytes) => if q.is_full() {
            (s, q)
        } else {
            (
                pushed_back(s, q, bytes),
                QueueView { ends: QueueEnds { back: ring_forward(q.ends.back, 1), ..q.ends }, ..q },
            )
        },
        QueueOp::PushFront(bytes) => if q.is_full() {
            (s, q)
        } else {
            (
                pushed_front(s, q, bytes),
                QueueView { ends: QueueEnds { front: ring_back(q.ends.front, 1), ..q.ends }, ..q },
            )
        },
        QueueOp::PopBack => if q.len() == 0 {
            (s, q)
        } else {
            (
                popped_back(s, q),
                QueueView { ends: QueueEnds { back: ring_back(q.ends.back, 1), ..q.ends }, ..q },
            )
        },
        QueueOp::PopFront => if q.len() == 0 {
            (s, q)
        } else {
            (
                popped_front(s, q),
                QueueView { ends: QueueEnds { front: ring_forward(q.ends.front, 1), ..q.ends }, ..q },
            )
        },
    }
}

/// A double-ended queue for reference: a sequence that takes a push while
/// it is shorter than `2^32 - 1`, and gives to a pop while it is not empty.
pub open spec fn reference_after(items: Seq<Option<Seq<u8>>>, op: QueueOp) -> Seq<
    Option<Seq<u8>>,
> {
    match op {
        QueueOp::PushBack(bytes) => if items.len() >= u32::MAX {
            items
        } else {
            items.push(Some(bytes))
        },
        QueueOp::PushFront(bytes) => if items.len() >= u32::MAX {
            items
        } else {
            seq![Some(bytes)] + items
        },
        QueueOp::PopBack => if items.len() == 0 {
            items
        } else {
            items.drop_last()
        },
        QueueOp::PopFront => if items.len() == 0 {
            items
        } else {
            items.skip(1)
        },
    }
}

/// The queue after a sequence of operations.
pub open spec fn queue_after_all(s: StorageView, q: QueueView, ops: Seq<QueueOp>) -> (
    StorageView,
    QueueView,
)
    decreases ops.len(),
{
    if ops.len() == 0 {
        (s, q)
    } else {
        let next = queue_after(s, q, ops[0]);
        queue_after_all(next.0, next.1, ops.skip(1))
    }
}

/// The reference queue after a sequence of operations.
pub open spec fn reference_after_all(items: Seq<Option<Seq<u8>>>, ops: Seq<QueueOp>) -> Seq<
    Option<Seq<u8>>,
>
    decreases ops.len(),
{
    if ops.len() == 0 {
        items
    } else {
        reference_after_all(reference_after(items, ops[0]), ops.skip(1))
    }
}

/// **The queue is a double-ended queue.** After any sequence of pushes and
/// pops at its two ends, the queue holds what a reference double-ended
/// queue holds after the same operations, and its length is the length of
/// that sequence. A queue whose cursors are those that the store keeps
/// stays so.
pub proof fn lemma_queue_follows_reference(s: StorageView, q: QueueView, ops: Seq<QueueOp>)
    ensures
        queue_items(queue_after_all(s, q, ops).0.records, queue_after_all(s, q, ops).1)
            == reference_after_all(queue_items(s.records, q), ops),
        queue_after_all(s, q, ops).1.len() == reference_after_all(
            queue_items(s.records, q),
            ops,
        ).len(),
        queue_after_all(s, q, ops).1.namespace == q.namespace,
        stored_ends(s.records, q.namespace) == q.ends ==> stored_ends(
            queue_after_all(s, q, ops).0.records,
            q.namespace,
        ) == queue_after_all(s, q, ops).1.ends,
    decreases ops.len(),
{
    if ops.len() > 0 {
        let next = queue_after(s, q, ops[0]);
        lemma_queue_len_is_wrapping_sub(q);
        match ops[0] {
            QueueOp::PushBack(bytes) => {
                if !q.is_full() {
                    lemma_push_back_appends(s, q, bytes);
                }
            },
            QueueOp::PushFront(bytes) => {
                if !q.is_full() {
                    lemma_push_front_prepends(s, q, bytes);
                }
            },
            QueueOp::PopBack => {
                if q.len() > 0 {
                    lemma_pop_back_drops_last(s, q);
                }
            },
            QueueOp::PopFront => {
                if q.len() > 0 {
                    lemma_pop_front_drops_first(s, q);
                }
            },
        }
        assert(queue_items(next.0.records, next.1) == reference_after(
            queue_items(s.records, q),
            ops[0],
        ));
        lemma_queue_follows_reference(next.0, next.1, ops.skip(1));
    }
}

/// **A vector reopens as a queue.** Where the store keeps the four bytes of
/// a vector's length under a namespace, the queue under that namespace has
/// its front at slot zero and its back at that length, and holds the
/// elements of the vector in their order.
pub proof fn lemma_vector_reopens_as_queue(records: Map<Seq<u8>, Seq<u8>>, namespace: Seq<u8>)
    requires
        records.contains_key(namespace),
        records[namespace].len() == 4,
    ensures
        stored_ends(records, namespace) == (QueueEnds {
            front: 0,
            back: stored_len(records, namespace),
        }),
        (QueueView { namespace, ends: stored_ends(records, namespace) }).len() == stored_len(
            records,
            namespace,
        ),
        queue_items(records, QueueView { namespace, ends: stored_ends(records, namespace) })
            == vec_items(records, namespace, stored_len(records, namespace)),
{
    lemma_vec_iter_items(records, namespace, stored_len(records, namespace));
}

} // verus!
