//! The meeting of the two ends: what an iterator over a range of keys hands
//! out when it is stepped from the front and from the back in any order,
//! while the records stay as they are.

use vstd::prelude::*;
use crate::bytes::{
    lemma_lex_irreflexive, lemma_lex_le_lt, lemma_lex_le_not_gt, lemma_lex_le_transitive,
    lemma_lex_successor, lemma_lex_total, lex_le, lex_lt,
};
use super::base::{
    first_record, in_range, is_first_in_range, iter_next_record, iter_next_store,
    lemma_first_record_found, none_in_range, CursorView, StorageView,
};
use super::{
    advance_back_by_spec, advance_by_spec, back_meets_front, front_meets_back, iterator_new_spec,
    next_pair_back_iter, next_pair_back_record, next_pair_back_store, next_pair_iter,
    next_pair_record, next_pair_store, open_ascending_iter, open_ascending_store,
    open_descending_iter, open_descending_store, skip_meets_back, skip_meets_front,
    IteratorDirection, IteratorView,
};

verus! {

/// `key` lies beyond the front of the iterator: at its start or after it
/// while the front is unused, and after the key that the front stands at
/// once it is in use.
pub open spec fn after_front(it: IteratorView, key: Seq<u8>) -> bool {
    match it.ascending_key {
        Some(front) => if it.ascending_id.is_some() {
            lex_lt(front, key)
        } else {
            lex_le(front, key)
        },
        None => true,
    }
}

/// `key` lies before the back of the iterator.
pub open spec fn before_back(it: IteratorView, key: Seq<u8>) -> bool {
    match it.descending_key {
        Some(back) => lex_lt(key, back),
        None => true,
    }
}

/// `key` is still to be handed out: it is a key of `records` between the
/// front and the back of the iterator.
pub open spec fn is_remaining(
    it: IteratorView,
    records: Map<Seq<u8>, Seq<u8>>,
    key: Seq<u8>,
) -> bool {
    records.contains_key(key) && after_front(it, key) && before_back(it, key)
}

/// Nothing is left to hand out.
pub open spec fn none_remaining(it: IteratorView, records: Map<Seq<u8>, Seq<u8>>) -> bool {
    forall|key: Seq<u8>| !#[trigger] is_remaining(it, records, key)
}

/// The front cursor, if it is open, has fallen behind nothing: it holds the
/// record of a key beyond the front, no remaining key comes before that
/// key, its bound lies at the back or beyond it, and where it has ended
/// nothing remains.
pub open spec fn front_in_step(it: IteratorView, s: StorageView) -> bool {
    match it.ascending_id {
        None => true,
        Some(a) => {
            &&& a < s.next_iter_id
            &&& if s.cursors.contains_key(a) {
                let c = s.cursors[a];
                &&& c.direction == IteratorDirection::Ascending
                &&& c.generation == s.generation
                &&& s.records.contains_key(c.key)
                &&& c.value == s.records[c.key]
                &&& after_front(it, c.key)
                &&& (c.bound matches Some(b) ==> lex_lt(c.key, b))
                &&& (c.bound matches Some(b) ==> (it.descending_key matches Some(h) && lex_le(
                    h,
                    b,
                )))
                &&& (it.descending_id.is_none() ==> c.bound == it.descending_key)
                &&& forall|key: Seq<u8>| #[trigger]
                    is_remaining(it, s.records, key) ==> lex_le(c.key, key)
            } else {
                none_remaining(it, s.records)
            }
        },
    }
}

/// The back cursor, if it is open, has fallen behind nothing.
pub open spec fn back_in_step(it: IteratorView, s: StorageView) -> bool {
    match it.descending_id {
        None => true,
        Some(d) => {
            &&& d < s.next_iter_id
            &&& if s.cursors.contains_key(d) {
                let c = s.cursors[d];
                &&& c.direction == IteratorDirection::Descending
                &&& c.generation == s.generation
                &&& s.records.contains_key(c.key)
                &&& c.value == s.records[c.key]
                &&& before_back(it, c.key)
                &&& (c.bound matches Some(b) ==> lex_le(b, c.key))
                &&& (c.bound matches Some(b) ==> (it.ascending_key matches Some(l) && lex_le(
                    b,
                    l,
                )))
                &&& (it.ascending_id.is_none() ==> c.bound == it.ascending_key)
                &&& forall|key: Seq<u8>| #[trigger]
                    is_remaining(it, s.records, key) ==> lex_le(key, c.key)
            } else {
                none_remaining(it, s.records)
            }
        },
    }
}

/// The number of cursors that the iterator has yet to open.
pub open spec fn unopened(it: IteratorView) -> int {
    (if it.ascending_id.is_none() {
        1int
    } else {
        0int
    }) + (if it.descending_id.is_none() {
        1int
    } else {
        0int
    })
}

/// The iterator and the store go together: the records are finitely many,
/// every open cursor of the store has an identifier below the next one to
/// be given out, identifiers are left for the cursors that the iterator has
/// yet to open, its two cursors differ, and each of them is in step.
///
/// An iterator that has not been used is in step with every store that has
/// such identifiers. Writing to the store, or stepping the iterator's
/// cursors by other means, may end this.
pub open spec fn in_step(it: IteratorView, s: StorageView) -> bool {
    &&& s.records.dom().finite()
    &&& forall|id: u32| #[trigger] s.cursors.contains_key(id) ==> id < s.next_iter_id
    &&& s.next_iter_id + unopened(it) <= u32::MAX
    &&& (it.ascending_id.is_some() && it.descending_id.is_some() ==> it.ascending_id
        != it.descending_id)
    &&& front_in_step(it, s)
    &&& back_in_step(it, s)
}

/// An iterator that has not been stepped is in step with a store of finitely
/// many records whose cursors have identifiers below the next one, of which
/// two are left. What remains is what the range holds: the keys from `start`
/// on, `start` included, and before `end`.
pub proof fn lemma_new_iterator_in_step(
    start: Option<Seq<u8>>,
    end: Option<Seq<u8>>,
    s: StorageView,
)
    requires
        s.records.dom().finite(),
        forall|id: u32| #[trigger] s.cursors.contains_key(id) ==> id < s.next_iter_id,
        s.next_iter_id + 2 <= u32::MAX,
    ensures
        in_step(iterator_new_spec(start, end), s),
        forall|key: Seq<u8>|
            is_remaining(iterator_new_spec(start, end), s.records, key) <==> (
            s.records.contains_key(key) && in_range(key, start, end)),
{
}

/// The cursor of `s` under `id` after a fetch, where the cursor ascends.
proof fn lemma_ascending_fetch(s: StorageView, id: u32)
    requires
        s.records.dom().finite(),
        s.cursors.contains_key(id),
        s.cursors[id].direction == IteratorDirection::Ascending,
        s.cursors[id].generation == s.generation,
    ensures
        iter_next_record(s, id) == Some((s.cursors[id].key, s.cursors[id].value)),
        iter_next_store(s, id).records == s.records,
        iter_next_store(s, id).generation == s.generation,
        iter_next_store(s, id).next_iter_id == s.next_iter_id,
        forall|other: u32|
            other != id ==> (iter_next_store(s, id).cursors.contains_key(other)
                == s.cursors.contains_key(other) && iter_next_store(s, id).cursors[other]
                == s.cursors[other]),
        match first_record(
            s.records,
            Some(s.cursors[id].key.push(0u8)),
            s.cursors[id].bound,
            IteratorDirection::Ascending,
        ) {
            Some((key, value)) => {
                &&& iter_next_store(s, id).cursors.contains_key(id)
                &&& iter_next_store(s, id).cursors[id] == CursorView {
                    key,
                    value,
                    ..s.cursors[id]
                }
                &&& is_first_in_range(
                    s.records,
                    Some(s.cursors[id].key.push(0u8)),
                    s.cursors[id].bound,
                    IteratorDirection::Ascending,
                    key,
                )
                &&& value == s.records[key]
            },
            None => {
                &&& !iter_next_store(s, id).cursors.contains_key(id)
                &&& none_in_range(
                    s.records,
                    Some(s.cursors[id].key.push(0u8)),
                    s.cursors[id].bound,
                )
            },
        },
{
    lemma_first_record_found(
        s.records,
        Some(s.cursors[id].key.push(0u8)),
        s.cursors[id].bound,
        IteratorDirection::Ascending,
    );
}

/// The cursor of `s` under `id` after a fetch, where the cursor descends.
proof fn lemma_descending_fetch(s: StorageView, id: u32)
    requires
        s.records.dom().finite(),
        s.cursors.contains_key(id),
        s.cursors[id].direction == IteratorDirection::Descending,
        s.cursors[id].generation == s.generation,
    ensures
        iter_next_record(s, id) == Some((s.cursors[id].key, s.cursors[id].value)),
        iter_next_store(s, id).records == s.records,
        iter_next_store(s, id).generation == s.generation,
        iter_next_store(s, id).next_iter_id == s.next_iter_id,
        forall|other: u32|
            other != id ==> (iter_next_store(s, id).cursors.contains_key(other)
                == s.cursors.contains_key(other) && iter_next_store(s, id).cursors[other]
                == s.cursors[other]),
        match first_record(
            s.records,
            s.cursors[id].bound,
            Some(s.cursors[id].key),
            IteratorDirection::Descending,
        ) {
            Some((key, value)) => {
                &&& iter_next_store(s, id).cursors.contains_key(id)
                &&& iter_next_store(s, id).cursors[id] == CursorView {
                    key,
                    value,
                    ..s.cursors[id]
                }
                &&& is_first_in_range(
                    s.records,
                    s.cursors[id].bound,
                    Some(s.cursors[id].key),
                    IteratorDirection::Descending,
                    key,
                )
                &&& value == s.records[key]
            },
            None => {
                &&& !iter_next_store(s, id).cursors.contains_key(id)
                &&& none_in_range(s.records, s.cursors[id].bound, Some(s.cursors[id].key))
            },
        },
{
    lemma_first_record_found(
        s.records,
        s.cursors[id].bound,
        Some(s.cursors[id].key),
        IteratorDirection::Descending,
    );
}

/// What a step from the front owes: the least remaining key with its
/// value, after which all other remaining keys remain; or `None`, where
/// nothing remains.
pub open spec fn hands_out_least(
    it: IteratorView,
    after: IteratorView,
    records: Map<Seq<u8>, Seq<u8>>,
    record: Option<(Seq<u8>, Seq<u8>)>,
) -> bool {
    match record {
        Some((key, value)) => {
            &&& is_remaining(it, records, key)
            &&& value == records[key]
            &&& forall|other: Seq<u8>| #[trigger]
                is_remaining(it, records, other) ==> lex_le(key, other)
            &&& forall|other: Seq<u8>| #[trigger]
                is_remaining(after, records, other) <==> (is_remaining(it, records, other)
                    && other != key)
        },
        None => none_remaining(it, records) && none_remaining(after, records),
    }
}

/// What a step from the back owes: the greatest remaining key with its
/// value, after which all other remaining keys remain; or `None`, where
/// nothing remains.
pub open spec fn hands_out_greatest(
    it: IteratorView,
    after: IteratorView,
    records: Map<Seq<u8>, Seq<u8>>,
    record: Option<(Seq<u8>, Seq<u8>)>,
) -> bool {
    match record {
        Some((key, value)) => {
            &&& is_remaining(it, records, key)
            &&& value == records[key]
            &&& forall|other: Seq<u8>| #[trigger]
                is_remaining(it, records, other) ==> lex_le(other, key)
            &&& forall|other: Seq<u8>| #[trigger]
                is_remaining(after, records, other) <==> (is_remaining(it, records, other)
                    && other != key)
        },
        None => none_remaining(it, records) && none_remaining(after, records),
    }
}

/// The front steps of an iterator whose front cursor is open already.
proof fn lemma_next_with_open_front(it: IteratorView, s: StorageView)
    requires
        in_step(it, s),
        it.ascending_id.is_some(),
    ensures
        in_step(next_pair_iter(it, s), next_pair_store(it, s)),
        next_pair_store(it, s).records == s.records,
        hands_out_least(it, next_pair_iter(it, s), s.records, next_pair_record(it, s)),
{
    let a = it.ascending_id.unwrap();
    let records = s.records;
    let after = next_pair_iter(it, s);
    let s2 = next_pair_store(it, s);
    if !s.cursors.contains_key(a) {
        assert(s2 == s);
        assert(after == it);
    } else {
        let c = s.cursors[a];
        let pa = c.key;
        lemma_ascending_fetch(s, a);
        assert(forall|id: u32| #[trigger] s2.cursors.contains_key(id) ==> id < s2.next_iter_id);
        let met = front_meets_back(it, pa);
        if met {
            let h = it.descending_key.unwrap();
            assert forall|key: Seq<u8>| !#[trigger] is_remaining(it, records, key) by {
                if is_remaining(it, records, key) {
                    lemma_lex_le_transitive(h, pa, key);
                    lemma_lex_le_not_gt(h, key);
                }
            }
            assert(after == it);
            // the front cursor has moved on or ended
            if s2.cursors.contains_key(a) {
                let p = s2.cursors[a].key;
                lemma_lex_successor(pa, p);
                lemma_after_front_grows(it, pa, p);
            }
            lemma_back_untouched(it, it, s, s2);
        } else {
            assert(next_pair_record(it, s) == Some((pa, c.value)));
            assert(after == IteratorView { ascending_key: Some(pa), ..it });
            // pa is before the back
            assert(before_back(it, pa)) by {
                match it.descending_key {
                    Some(h) => {
                        lemma_lex_total(h, pa);
                    },
                    None => {},
                }
            }
            assert(is_remaining(it, records, pa));
            assert forall|other: Seq<u8>| #[trigger]
                is_remaining(after, records, other) <==> (is_remaining(it, records, other) && other
                    != pa) by {
                lemma_lex_irreflexive(pa);
                if is_remaining(after, records, other) {
                    lemma_after_front_grows(it, pa, other);
                }
                if is_remaining(it, records, other) && other != pa {
                    assert(lex_le(pa, other));
                }
            }
            // the front cursor after the fetch
            if s2.cursors.contains_key(a) {
                let p = s2.cursors[a].key;
                lemma_lex_successor(pa, p);
                assert forall|key: Seq<u8>| #[trigger]
                    is_remaining(after, records, key) implies lex_le(p, key) by {
                    lemma_lex_successor(pa, key);
                    lemma_bound_admits(it, c.bound, key);
                    assert(records.contains_key(key) && in_range(
                        key,
                        Some(pa.push(0u8)),
                        c.bound,
                    ));
                }
            } else {
                assert forall|key: Seq<u8>| !#[trigger] is_remaining(after, records, key) by {
                    if is_remaining(after, records, key) {
                        lemma_lex_successor(pa, key);
                        lemma_bound_admits(it, c.bound, key);
                        assert(records.contains_key(key));
                        assert(in_range(key, Some(pa.push(0u8)), c.bound));
                    }
                }
            }
            assert(front_in_step(after, s2));
            lemma_back_untouched(it, after, s, s2);
        }
    }
}

/// What lies after a key beyond the front lies beyond the front.
proof fn lemma_after_front_grows(it: IteratorView, pa: Seq<u8>, key: Seq<u8>)
    requires
        after_front(it, pa),
        lex_lt(pa, key),
    ensures
        after_front(it, key),
{
    match it.ascending_key {
        Some(front) => {
            lemma_lex_le_lt(front, pa, key);
        },
        None => {},
    }
}

/// A key before the back lies before every bound at the back or beyond it.
proof fn lemma_bound_admits(it: IteratorView, bound: Option<Seq<u8>>, key: Seq<u8>)
    requires
        before_back(it, key),
        bound matches Some(b) ==> (it.descending_key matches Some(h) && lex_le(h, b)),
    ensures
        bound matches Some(b) ==> lex_lt(key, b),
{
    match bound {
        Some(b) => {
            lemma_lex_le_lt(key, it.descending_key.unwrap(), b);
        },
        None => {},
    }
}

/// A step of the front leaves the back cursor in step: the front key has
/// not moved back, the back key has not moved, and what remains remained.
proof fn lemma_back_untouched(it: IteratorView, after: IteratorView, s: StorageView, s2: StorageView)
    requires
        back_in_step(it, s),
        it.ascending_id.is_some() && it.descending_id.is_some() ==> it.ascending_id
            != it.descending_id,
        after.descending_id == it.descending_id,
        after.descending_key == it.descending_key,
        after.ascending_id.is_some(),
        s2.records == s.records,
        s2.generation == s.generation,
        s2.next_iter_id >= s.next_iter_id,
        it.descending_id matches Some(d) ==> (s2.cursors.contains_key(d) == s.cursors.contains_key(
            d,
        ) && s2.cursors[d] == s.cursors[d]),
        forall|key: Seq<u8>| #[trigger]
            is_remaining(after, s.records, key) ==> is_remaining(it, s.records, key),
        match (it.ascending_key, after.ascending_key) {
            (Some(l), Some(l2)) => lex_le(l, l2),
            (Some(l), None) => false,
            _ => true,
        },
    ensures
        back_in_step(after, s2),
{
    match it.descending_id {
        Some(d) => {
            if s.cursors.contains_key(d) {
                let c = s.cursors[d];
                match c.bound {
                    Some(b) => {
                        lemma_lex_le_transitive(
                            b,
                            it.ascending_key.unwrap(),
                            after.ascending_key.unwrap(),
                        );
                    },
                    None => {},
                }
            }
        },
        None => {},
    }
}

/// The first front step of an iterator: its front cursor is opened over
/// what lies between the front and the back, and fetches once.
proof fn lemma_next_opening_front(it: IteratorView, s: StorageView)
    requires
        in_step(it, s),
        it.ascending_id.is_none(),
    ensures
        in_step(next_pair_iter(it, s), next_pair_store(it, s)),
        next_pair_store(it, s).records == s.records,
        hands_out_least(it, next_pair_iter(it, s), s.records, next_pair_record(it, s)),
{
    let a = s.next_iter_id;
    let records = s.records;
    let lo = it.ascending_key;
    let hi = it.descending_key;
    let opened = open_ascending_iter(it, s);
    let s1 = open_ascending_store(it, s);
    let after = next_pair_iter(it, s);
    let s2 = next_pair_store(it, s);
    assert(!s.cursors.contains_key(a));
    lemma_first_record_found(records, lo, hi, IteratorDirection::Ascending);
    match first_record(records, lo, hi, IteratorDirection::Ascending) {
        None => {
            assert(!s1.cursors.contains_key(a));
            assert(s2 == s1);
            assert(after == opened);
            assert forall|key: Seq<u8>| !#[trigger] is_remaining(it, records, key) by {
                if is_remaining(it, records, key) {
                    assert(records.contains_key(key));
                    assert(in_range(key, lo, hi));
                }
            }
            assert forall|key: Seq<u8>| !#[trigger] is_remaining(after, records, key) by {
                if is_remaining(after, records, key) {
                    assert(is_remaining(it, records, key));
                }
            }
            lemma_back_untouched(it, after, s, s2);
        },
        Some((f, v)) => {
            let c = CursorView {
                key: f,
                value: v,
                bound: hi,
                direction: IteratorDirection::Ascending,
                generation: s.generation,
            };
            assert(s1.cursors.contains_key(a) && s1.cursors[a] == c);
            assert(s1.records == records);
            lemma_ascending_fetch(s1, a);
            assert(!front_meets_back(opened, f)) by {
                match hi {
                    Some(h) => {
                        lemma_lex_total(h, f);
                    },
                    None => {},
                }
            }
            assert(next_pair_record(it, s) == Some((f, v)));
            assert(after == IteratorView { ascending_key: Some(f), ..opened });
            assert(is_remaining(it, records, f));
            assert forall|other: Seq<u8>| #[trigger]
                is_remaining(it, records, other) implies lex_le(f, other) by {
                assert(records.contains_key(other) && in_range(other, lo, hi));
            }
            assert forall|other: Seq<u8>| #[trigger]
                is_remaining(after, records, other) <==> (is_remaining(it, records, other) && other
                    != f) by {
                lemma_lex_irreflexive(f);
                if is_remaining(after, records, other) {
                    match lo {
                        Some(l) => {
                            lemma_lex_le_lt(l, f, other);
                        },
                        None => {},
                    }
                }
                if is_remaining(it, records, other) && other != f {
                    assert(records.contains_key(other) && in_range(other, lo, hi));
                }
            }
            assert(forall|id: u32| #[trigger] s2.cursors.contains_key(id) ==> id < s2.next_iter_id);
            if s2.cursors.contains_key(a) {
                let p = s2.cursors[a].key;
                lemma_lex_successor(f, p);
                assert forall|key: Seq<u8>| #[trigger]
                    is_remaining(after, records, key) implies lex_le(p, key) by {
                    lemma_lex_successor(f, key);
                    assert(records.contains_key(key) && in_range(key, Some(f.push(0u8)), hi));
                }
                match hi {
                    Some(h) => {
                        assert(lex_le(h, h));
                    },
                    None => {},
                }
            } else {
                assert forall|key: Seq<u8>| !#[trigger] is_remaining(after, records, key) by {
                    if is_remaining(after, records, key) {
                        lemma_lex_successor(f, key);
                        assert(records.contains_key(key));
                        assert(in_range(key, Some(f.push(0u8)), hi));
                    }
                }
            }
            assert(front_in_step(after, s2));
            lemma_back_untouched(it, after, s, s2);
        },
    }
}

/// **The two ends meet, from the front.** While an iterator and the store are
/// in step, a step from the front hands out the least key that remains
/// between the front and the back, with its value, and `None` exactly where
/// nothing remains. Afterwards that key remains no more, every other
/// remaining key still does, the records are as they were, and iterator and
/// store are in step again. So steps from the front hand out the keys in
/// ascending order, each once, and none that the back has handed out.
pub proof fn lemma_next_hands_out_least(it: IteratorView, s: StorageView)
    requires
        in_step(it, s),
    ensures
        in_step(next_pair_iter(it, s), next_pair_store(it, s)),
        next_pair_store(it, s).records == s.records,
        hands_out_least(it, next_pair_iter(it, s), s.records, next_pair_record(it, s)),
{
    if it.ascending_id.is_some() {
        lemma_next_with_open_front(it, s);
    } else {
        lemma_next_opening_front(it, s);
    }
}

/// What lies before a key before the back lies before the back.
proof fn lemma_before_back_grows(it: IteratorView, pd: Seq<u8>, key: Seq<u8>)
    requires
        before_back(it, pd),
        lex_lt(key, pd),
    ensures
        before_back(it, key),
{
    match it.descending_key {
        Some(back) => {
            lemma_lex_le_lt(key, pd, back);
        },
        None => {},
    }
}

/// A key beyond the front lies at or beyond every bound at the front or
/// before it.
proof fn lemma_bound_admits_front(it: IteratorView, bound: Option<Seq<u8>>, key: Seq<u8>)
    requires
        after_front(it, key),
        bound matches Some(b) ==> (it.ascending_key matches Some(l) && lex_le(b, l)),
    ensures
        bound matches Some(b) ==> lex_le(b, key),
{
    match bound {
        Some(b) => {
            let l = it.ascending_key.unwrap();
            if it.ascending_id.is_some() {
                lemma_lex_le_lt(b, l, key);
            } else {
                lemma_lex_le_transitive(b, l, key);
            }
        },
        None => {},
    }
}

/// A step of the back leaves the front cursor in step: the back key has not
/// moved forward, the front key has not moved, and what remains remained.
proof fn lemma_front_untouched(it: IteratorView, after: IteratorView, s: StorageView, s2: StorageView)
    requires
        front_in_step(it, s),
        it.ascending_id.is_some() && it.descending_id.is_some() ==> it.ascending_id
            != it.descending_id,
        after.ascending_id == it.ascending_id,
        after.ascending_key == it.ascending_key,
        after.descending_id.is_some(),
        s2.records == s.records,
        s2.generation == s.generation,
        s2.next_iter_id >= s.next_iter_id,
        it.ascending_id matches Some(a) ==> (s2.cursors.contains_key(a) == s.cursors.contains_key(
            a,
        ) && s2.cursors[a] == s.cursors[a]),
        forall|key: Seq<u8>| #[trigger]
            is_remaining(after, s.records, key) ==> is_remaining(it, s.records, key),
        match (it.descending_key, after.descending_key) {
            (Some(h), Some(h2)) => lex_le(h2, h),
            (Some(h), None) => false,
            _ => true,
        },
    ensures
        front_in_step(after, s2),
{
    match it.ascending_id {
        Some(a) => {
            if s.cursors.contains_key(a) {
                let c = s.cursors[a];
                match c.bound {
                    Some(b) => {
                        lemma_lex_le_transitive(
                            after.descending_key.unwrap(),
                            it.descending_key.unwrap(),
                            b,
                        );
                    },
                    None => {},
                }
            }
        },
        None => {},
    }
}

/// The back steps of an iterator whose back cursor is open already.
proof fn lemma_next_back_with_open_back(it: IteratorView, s: StorageView)
    requires
        in_step(it, s),
        it.descending_id.is_some(),
    ensures
        in_step(next_pair_back_iter(it, s), next_pair_back_store(it, s)),
        next_pair_back_store(it, s).records == s.records,
        hands_out_greatest(
            it,
            next_pair_back_iter(it, s),
            s.records,
            next_pair_back_record(it, s),
        ),
{
    let d = it.descending_id.unwrap();
    let records = s.records;
    let after = next_pair_back_iter(it, s);
    let s2 = next_pair_back_store(it, s);
    if !s.cursors.contains_key(d) {
        assert(s2 == s);
        assert(after == it);
    } else {
        let c = s.cursors[d];
        let pd = c.key;
        lemma_descending_fetch(s, d);
        assert(forall|id: u32| #[trigger] s2.cursors.contains_key(id) ==> id < s2.next_iter_id);
        let met = back_meets_front(it, pd);
        if met {
            let l = it.ascending_key.unwrap();
            assert forall|key: Seq<u8>| !#[trigger] is_remaining(it, records, key) by {
                if is_remaining(it, records, key) {
                    lemma_lex_le_transitive(key, pd, l);
                    lemma_lex_le_not_gt(key, l);
                }
            }
            assert(after == it);
            if s2.cursors.contains_key(d) {
                let p = s2.cursors[d].key;
                lemma_before_back_grows(it, pd, p);
            }
            lemma_front_untouched(it, it, s, s2);
        } else {
            assert(next_pair_back_record(it, s) == Some((pd, c.value)));
            assert(after == IteratorView { descending_key: Some(pd), ..it });
            assert(after_front(it, pd)) by {
                match it.ascending_key {
                    Some(l) => {
                        lemma_lex_total(l, pd);
                    },
                    None => {},
                }
            }
            assert(is_remaining(it, records, pd));
            assert forall|other: Seq<u8>| #[trigger]
                is_remaining(after, records, other) <==> (is_remaining(it, records, other) && other
                    != pd) by {
                lemma_lex_irreflexive(pd);
                if is_remaining(after, records, other) {
                    lemma_before_back_grows(it, pd, other);
                }
                if is_remaining(it, records, other) && other != pd {
                    assert(lex_le(other, pd));
                }
            }
            if s2.cursors.contains_key(d) {
                let p = s2.cursors[d].key;
                assert forall|key: Seq<u8>| #[trigger]
                    is_remaining(after, records, key) implies lex_le(key, p) by {
                    lemma_bound_admits_front(it, c.bound, key);
                    assert(records.contains_key(key) && in_range(key, c.bound, Some(pd)));
                }
            } else {
                assert forall|key: Seq<u8>| !#[trigger] is_remaining(after, records, key) by {
                    if is_remaining(after, records, key) {
                        lemma_bound_admits_front(it, c.bound, key);
                        assert(records.contains_key(key));
                        assert(in_range(key, c.bound, Some(pd)));
                    }
                }
            }
            assert(back_in_step(after, s2));
            lemma_front_untouched(it, after, s, s2);
        }
    }
}

/// The first back step of an iterator: its back cursor is opened over what
/// lies between the front and the back, and fetches once.
proof fn lemma_next_back_opening_back(it: IteratorView, s: StorageView)
    requires
        in_step(it, s),
        it.descending_id.is_none(),
    ensures
        in_step(next_pair_back_iter(it, s), next_pair_back_store(it, s)),
        next_pair_back_store(it, s).records == s.records,
        hands_out_greatest(
            it,
            next_pair_back_iter(it, s),
            s.records,
            next_pair_back_record(it, s),
        ),
{
    let d = s.next_iter_id;
    let records = s.records;
    let lo = it.ascending_key;
    let hi = it.descending_key;
    let opened = open_descending_iter(it, s);
    let s1 = open_descending_store(it, s);
    let after = next_pair_back_iter(it, s);
    let s2 = next_pair_back_store(it, s);
    assert(!s.cursors.contains_key(d));
    lemma_first_record_found(records, lo, hi, IteratorDirection::Descending);
    match first_record(records, lo, hi, IteratorDirection::Descending) {
        None => {
            assert(!s1.cursors.contains_key(d));
            assert(s2 == s1);
            assert(after == opened);
            assert forall|key: Seq<u8>| !#[trigger] is_remaining(it, records, key) by {
                if is_remaining(it, records, key) {
                    assert(records.contains_key(key));
                    assert(in_range(key, lo, hi));
                }
            }
            assert forall|key: Seq<u8>| !#[trigger] is_remaining(after, records, key) by {
                if is_remaining(after, records, key) {
                    assert(is_remaining(it, records, key));
                }
            }
            lemma_front_untouched(it, after, s, s2);
        },
        Some((g, v)) => {
            let c = CursorView {
                key: g,
                value: v,
                bound: lo,
                direction: IteratorDirection::Descending,
                generation: s.generation,
            };
            assert(s1.cursors.contains_key(d) && s1.cursors[d] == c);
            assert(s1.records == records);
            lemma_descending_fetch(s1, d);
            assert(forall|id: u32| #[trigger] s2.cursors.contains_key(id) ==> id < s2.next_iter_id);
            match lo {
                Some(l) => {
                    assert(lex_le(l, l));
                },
                None => {},
            }
            if back_meets_front(opened, g) {
                let l = lo.unwrap();
                assert(after == opened);
                assert forall|key: Seq<u8>| !#[trigger] is_remaining(it, records, key) by {
                    if is_remaining(it, records, key) {
                        assert(records.contains_key(key) && in_range(key, lo, hi));
                        lemma_lex_le_transitive(key, g, l);
                        lemma_lex_le_not_gt(key, l);
                    }
                }
                assert forall|key: Seq<u8>| !#[trigger] is_remaining(after, records, key) by {
                    if is_remaining(after, records, key) {
                        assert(is_remaining(it, records, key));
                    }
                }
                if s2.cursors.contains_key(d) {
                    let p = s2.cursors[d].key;
                    assert(in_range(p, lo, Some(g)));
                    assert(in_range(g, lo, hi));
                    lemma_before_back_grows(it, g, p);
                }
                assert(back_in_step(after, s2));
                lemma_front_untouched(it, after, s, s2);
            } else {
                assert(next_pair_back_record(it, s) == Some((g, v)));
                assert(after == IteratorView { descending_key: Some(g), ..opened });
                assert(after_front(it, g)) by {
                    match lo {
                        Some(l) => {
                            lemma_lex_total(l, g);
                        },
                        None => {},
                    }
                }
                assert(is_remaining(it, records, g));
                assert forall|other: Seq<u8>| #[trigger]
                    is_remaining(it, records, other) implies lex_le(other, g) by {
                    assert(records.contains_key(other) && in_range(other, lo, hi));
                }
                assert forall|other: Seq<u8>| #[trigger]
                    is_remaining(after, records, other) <==> (is_remaining(it, records, other)
                        && other != g) by {
                    lemma_lex_irreflexive(g);
                    if is_remaining(after, records, other) {
                        lemma_before_back_grows(it, g, other);
                    }
                    if is_remaining(it, records, other) && other != g {
                        assert(records.contains_key(other) && in_range(other, lo, hi));
                    }
                }
                if s2.cursors.contains_key(d) {
                    let p = s2.cursors[d].key;
                    assert forall|key: Seq<u8>| #[trigger]
                        is_remaining(after, records, key) implies lex_le(key, p) by {
                        lemma_bound_admits_front(it, lo, key);
                        assert(records.contains_key(key) && in_range(key, lo, Some(g)));
                    }
                } else {
                    assert forall|key: Seq<u8>| !#[trigger] is_remaining(after, records, key) by {
                        if is_remaining(after, records, key) {
                            lemma_bound_admits_front(it, lo, key);
                            assert(records.contains_key(key));
                            assert(in_range(key, lo, Some(g)));
                        }
                    }
                }
                assert(back_in_step(after, s2));
                lemma_front_untouched(it, after, s, s2);
            }
        },
    }
}

/// **The two ends meet, from the back.** While an iterator and the store are
/// in step, a step from the back hands out the greatest key that remains
/// between the front and the back, with its value, and `None` exactly where
/// nothing remains. Afterwards that key remains no more, every other
/// remaining key still does, the records are as they were, and iterator and
/// store are in step again. Together with the law of the front: however the
/// steps from the two ends are mixed, each key of the range is handed out
/// once, none is passed over, and neither end goes past the other.
pub proof fn lemma_next_back_hands_out_greatest(it: IteratorView, s: StorageView)
    requires
        in_step(it, s),
    ensures
        in_step(next_pair_back_iter(it, s), next_pair_back_store(it, s)),
        next_pair_back_store(it, s).records == s.records,
        hands_out_greatest(
            it,
            next_pair_back_iter(it, s),
            s.records,
            next_pair_back_record(it, s),
        ),
{
    if it.descending_id.is_some() {
        lemma_next_back_with_open_back(it, s);
    } else {
        lemma_next_back_opening_back(it, s);
    }
}

/// While an iterator and the store are in step, the record that the front
/// cursor fetches next is refused for the skip exactly where it is refused
/// for the step: where the back has handed it out already.
proof fn lemma_fetched_front_meets(it: IteratorView, s: StorageView)
    requires
        in_step(it, s),
    ensures
        iter_next_record(
            open_ascending_store(it, s),
            open_ascending_iter(it, s).ascending_id.unwrap(),
        ) matches Some((key, value)) ==> skip_meets_back(open_ascending_iter(it, s), key)
            == front_meets_back(open_ascending_iter(it, s), key),
{
    let opened = open_ascending_iter(it, s);
    let s1 = open_ascending_store(it, s);
    let a = opened.ascending_id.unwrap();
    match iter_next_record(s1, a) {
        Some((key, value)) => {
            if it.descending_id.is_none() {
                match it.descending_key {
                    Some(h) => {
                        lemma_lex_total(h, key);
                        if it.ascending_id.is_none() {
                            lemma_first_record_found(
                                s.records,
                                it.ascending_key,
                                it.descending_key,
                                IteratorDirection::Ascending,
                            );
                            assert(in_range(key, it.ascending_key, it.descending_key));
                        }
                    },
                    None => {},
                }
            }
        },
        None => {},
    }
}

/// **Skipping from the front is stepping from the front.** While an
/// iterator and the store are in step, `advance_by(n)` for a positive `n`
/// does what one step from the front does, and then what
/// `advance_by(n - 1)` does, unless the step hands out nothing: then it
/// stops, with `n` of the records not skipped. So it passes over the `n`
/// least remaining keys, or over all of them where there are fewer, and
/// returns the number that were missing.
pub proof fn lemma_advance_by_steps(it: IteratorView, s: StorageView, n: nat)
    requires
        in_step(it, s),
        n > 0,
    ensures
        advance_by_spec(it, s, n) == (if next_pair_record(it, s).is_some() {
            advance_by_spec(next_pair_iter(it, s), next_pair_store(it, s), (n - 1) as nat)
        } else {
            (next_pair_iter(it, s), next_pair_store(it, s), n)
        }),
{
    lemma_fetched_front_meets(it, s);
    lemma_next_hands_out_least(it, s);
}

/// While an iterator and the store are in step, the record that the back
/// cursor fetches next is refused for the skip exactly where it is refused
/// for the step: where the front has handed it out already.
proof fn lemma_fetched_back_meets(it: IteratorView, s: StorageView)
    requires
        in_step(it, s),
    ensures
        iter_next_record(
            open_descending_store(it, s),
            open_descending_iter(it, s).descending_id.unwrap(),
        ) matches Some((key, value)) ==> skip_meets_front(open_descending_iter(it, s), key)
            == back_meets_front(open_descending_iter(it, s), key),
{
    let opened = open_descending_iter(it, s);
    let s1 = open_descending_store(it, s);
    let d = opened.descending_id.unwrap();
    match iter_next_record(s1, d) {
        Some((key, value)) => {
            match it.ascending_key {
                Some(l) => {
                    lemma_lex_total(l, key);
                    lemma_lex_irreflexive(key);
                    if it.descending_id.is_none() {
                        lemma_first_record_found(
                            s.records,
                            it.ascending_key,
                            it.descending_key,
                            IteratorDirection::Descending,
                        );
                        assert(in_range(key, it.ascending_key, it.descending_key));
                    }
                },
                None => {},
            }
        },
        None => {},
    }
}

/// **Skipping from the back is stepping from the back.** While an iterator
/// and the store are in step, `advance_back_by(n)` for a positive `n` does
/// what one step from the back does, and then what `advance_back_by(n - 1)`
/// does, unless the step hands out nothing: then it stops, with `n` of the
/// records not skipped.
pub proof fn lemma_advance_back_by_steps(it: IteratorView, s: StorageView, n: nat)
    requires
        in_step(it, s),
        n > 0,
    ensures
        advance_back_by_spec(it, s, n) == (if next_pair_back_record(it, s).is_some() {
            advance_back_by_spec(
                next_pair_back_iter(it, s),
                next_pair_back_store(it, s),
                (n - 1) as nat,
            )
        } else {
            (next_pair_back_iter(it, s), next_pair_back_store(it, s), n)
        }),
{
    lemma_fetched_back_meets(it, s);
    lemma_next_back_hands_out_greatest(it, s);
}

} // verus!
