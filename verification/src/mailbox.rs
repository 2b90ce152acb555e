//! # Mailbox module
//!
//! The mailbox stores the [`MAILBOX_MAX_SIZE`] most recent messages of each
//! type. If the message limit is exceeded, the oldest message is dropped in
//! favor of the new one. Users of the mailbox can read the `next` message in
//! arrival order, or the next message with a particular message id
//! (`next_with_id`).
use crate::mailbox::laws::of_id;
use crate::message::{MavFrame, Message};
use std::collections::hash_map::Entry;
use std::collections::{HashMap, VecDeque};
use std::time::{Duration, Instant};
use vstd::prelude::*;

pub mod laws;

verus! {

/// The number of entries to keep of a single message id.
pub const MAILBOX_MAX_SIZE: usize = 16;

/// No duration has as many nanoseconds: 2^64 seconds.
pub const CLOCK_RANGE: u128 = 0x3B9A_CA00_0000_0000_0000_0000;

/// The clock reading of std.
#[verifier::external_type_specification]
#[verifier::external_body]
pub struct ExInstant(std::time::Instant);

/// Calls `Instant::now`. Nothing is claimed of the reading.
#[verifier::external_body]
fn instant_now() -> (now: Instant) {
    Instant::now()
}

/// Calls `Instant::elapsed`. Nothing is claimed of the reading.
#[verifier::external_body]
fn elapsed(epoch: &Instant) -> (duration: Duration) {
    epoch.elapsed()
}

/// What `Duration::as_nanos` returns.
pub uninterp spec fn nanos_in(duration: Duration) -> u128;

/// Calls `Duration::as_nanos`, a function of the duration alone. A duration is
/// a number of seconds below 2^64, and less than a second in nanoseconds.
#[verifier::external_body]
fn as_nanos(duration: &Duration) -> (nanos: u128)
    ensures
        nanos == nanos_in(*duration),
        nanos < CLOCK_RANGE,
{
    duration.as_nanos()
}

/// Calls `VecDeque::get_mut`: the item at the index, to be changed in place.
#[verifier::external_body]
fn deque_get_mut<T>(deque: &mut VecDeque<T>, index: usize) -> (item: &mut T)
    requires
        index < old(deque)@.len(),
    ensures
        *item == old(deque)@[index as int],
        final(deque)@ == old(deque)@.update(index as int, *final(item)),
{
    deque.get_mut(index).unwrap()
}

/// The position of the first frame with the given message id; the number of
/// frames, if there is none.
pub open spec fn first_of<M: Message>(frames: Seq<MavFrame<M>>, id: u32) -> int
    decreases frames.len(),
{
    if frames.len() == 0 || frames[0].msg.id() == id {
        0
    } else {
        1 + first_of(frames.skip(1), id)
    }
}

/// The number of frames with the given message id.
pub open spec fn count_of<M: Message>(frames: Seq<MavFrame<M>>, id: u32) -> nat
    decreases frames.len(),
{
    if frames.len() == 0 {
        0
    } else {
        count_of(frames.drop_last(), id) + if frames.last().msg.id() == id {
            1nat
        } else {
            0nat
        }
    }
}

/// The frames after the oldest one with the given message id has been taken.
pub open spec fn without_first<M: Message>(frames: Seq<MavFrame<M>>, id: u32) -> Seq<MavFrame<M>> {
    if first_of(frames, id) < frames.len() {
        frames.remove(first_of(frames, id))
    } else {
        frames
    }
}

/// The frames after `frame` has arrived: it comes last, and where its message
/// id had no space left, the oldest frame with that id has made room.
pub open spec fn with_arrival<M: Message>(
    frames: Seq<MavFrame<M>>,
    frame: MavFrame<M>,
) -> Seq<MavFrame<M>> {
    let id = frame.msg.id();
    if count_of(frames, id) >= MAILBOX_MAX_SIZE {
        without_first(frames, id).push(frame)
    } else {
        frames.push(frame)
    }
}

/// An arrival later than `latest`: the clock reading where it is later, else
/// the arrival right after `latest`, if there is one.
pub open spec fn later_arrival(latest: Option<u128>, now: u128) -> Option<u128> {
    match latest {
        None => Some(now),
        Some(t) => if t < now {
            Some(now)
        } else if t < u128::MAX {
            Some((t + 1) as u128)
        } else {
            None
        },
    }
}

/// A frame in the mailbox, with its neighbours in the order of arrival.
struct MailboxEntry<M> {
    frame: MavFrame<M>,
    arrival: u128,
    prev: Option<(u32, u128)>,
    next: Option<(u32, u128)>,
}

/// The queues store the entries in order of arrival for a given id. There is
/// an intrusive doubly linked list with head `first_msg` and tail `last_msg`
/// that stores the order of arrival across all ids, this way the mailbox can
/// be traversed both for each message id and in overall arrival order. An
/// entry is addressed by its message id and its arrival.
pub struct MailboxInner<M> {
    entries: HashMap<u32, VecDeque<MailboxEntry<M>>>,
    last_msg: Option<(u32, u128)>,
    first_msg: Option<(u32, u128)>,
    /// Arrivals are counted from here, in nanoseconds.
    epoch: Instant,
    /// The addresses of all entries in arrival order.
    order: Ghost<Seq<(u32, u128)>>,
}

/// What became of a frame that was put into the mailbox.
pub enum Inserted<M> {
    /// The mailbox holds one frame more.
    Added,
    /// The frame has taken the place of the oldest one with its message id.
    Replaced(MavFrame<M>),
    /// No arrival is left that is later than the latest one of the frame's
    /// message id.
    Refused(MavFrame<M>),
}

/// What came of waiting for a frame to be in the mailbox.
pub enum Permit {
    /// There is a frame for the one who waited.
    Acquired,
    /// The mailbox was closed.
    Closed,
}

/// What a look for a frame with a particular message id has brought.
pub enum Lookup<M> {
    /// The frame.
    Found(MavFrame<M>),
    /// The frame that arrived was not the wanted one: give the permit back and
    /// wait again.
    WaitAgain,
    /// There will be no more frames.
    Closed,
}

// The queues as one table from address to entry.
spec fn sorted<M>(deque: Seq<MailboxEntry<M>>) -> bool {
    forall|p: int, q: int| 0 <= p < q < deque.len() ==> deque[p].arrival < deque[q].arrival
}

spec fn all_sorted<M>(entries: Map<u32, VecDeque<MailboxEntry<M>>>) -> bool {
    forall|id: u32| #[trigger] entries.contains_key(id) ==> sorted(entries[id]@)
}

spec fn has_arrival<M>(deque: Seq<MailboxEntry<M>>, arrival: u128) -> bool {
    exists|p: int| 0 <= p < deque.len() && (#[trigger] deque[p]).arrival == arrival
}

spec fn position<M>(deque: Seq<MailboxEntry<M>>, arrival: u128) -> int {
    choose|p: int| 0 <= p < deque.len() && (#[trigger] deque[p]).arrival == arrival
}

spec fn table<M>(entries: Map<u32, VecDeque<MailboxEntry<M>>>) -> Map<
    (u32, u128),
    MailboxEntry<M>,
> {
    Map::new(
        |idx: (u32, u128)| entries.contains_key(idx.0) && has_arrival(entries[idx.0]@, idx.1),
        |idx: (u32, u128)| entries[idx.0]@[position(entries[idx.0]@, idx.1)],
    )
}

spec fn queue_len<M>(entries: Map<u32, VecDeque<MailboxEntry<M>>>, id: u32) -> nat {
    if entries.contains_key(id) {
        entries[id]@.len()
    } else {
        0
    }
}

// The list that is threaded through the table.
/// The address at a place of the list, if there is one.
pub open spec fn at(order: Seq<(u32, u128)>, k: int) -> Option<(u32, u128)> {
    if 0 <= k < order.len() {
        Some(order[k])
    } else {
        None
    }
}

spec fn count_id(order: Seq<(u32, u128)>, id: u32) -> nat
    decreases order.len(),
{
    if order.len() == 0 {
        0
    } else {
        count_id(order.drop_last(), id) + if order.last().0 == id {
            1nat
        } else {
            0nat
        }
    }
}

spec fn ordered(order: Seq<(u32, u128)>) -> bool {
    forall|i: int, j: int|
        0 <= i < j < order.len() && order[i].0 == order[j].0 ==> order[i].1 < order[j].1
}

spec fn linked_at<M: Message>(
    table: Map<(u32, u128), MailboxEntry<M>>,
    order: Seq<(u32, u128)>,
    k: int,
) -> bool {
    let entry = table[order[k]];
    &&& entry.arrival == order[k].1
    &&& entry.frame.msg.id() == order[k].0
    &&& entry.prev == at(order, k - 1)
    &&& entry.next == at(order, k + 1)
}

spec fn linked<M: Message>(
    table: Map<(u32, u128), MailboxEntry<M>>,
    order: Seq<(u32, u128)>,
) -> bool {
    &&& ordered(order)
    &&& forall|idx: (u32, u128)| #[trigger] table.contains_key(idx) <==> order.contains(idx)
    &&& forall|k: int| 0 <= k < order.len() ==> #[trigger] linked_at(table, order, k)
}

proof fn lemma_position<M>(deque: Seq<MailboxEntry<M>>, p: int)
    requires
        sorted(deque),
        0 <= p < deque.len(),
    ensures
        has_arrival(deque, deque[p].arrival),
        position(deque, deque[p].arrival) == p,
{
    let q = position(deque, deque[p].arrival);
    assert(0 <= q < deque.len() && deque[q].arrival == deque[p].arrival);
}

/// A later entry at the back of a queue is one more row in the table.
proof fn lemma_table_push<M>(
    before: Map<u32, VecDeque<MailboxEntry<M>>>,
    after: Map<u32, VecDeque<MailboxEntry<M>>>,
    id: u32,
    old_queue: Seq<MailboxEntry<M>>,
    entry: MailboxEntry<M>,
)
    requires
        all_sorted(before),
        old_queue == (if before.contains_key(id) {
            before[id]@
        } else {
            Seq::empty()
        }),
        old_queue.len() > 0 ==> old_queue.last().arrival < entry.arrival,
        after.contains_key(id),
        after[id]@ == old_queue.push(entry),
        forall|i: u32|
            i != id ==> (#[trigger] after.contains_key(i) <==> before.contains_key(i)) && after[i]
                == before[i],
    ensures
        all_sorted(after),
        table(after) == table(before).insert((id, entry.arrival), entry),
{
    let queue = after[id]@;
    assert(sorted(old_queue));
    assert(sorted(queue)) by {
        assert forall|p: int, q: int| 0 <= p < q < queue.len() implies queue[p].arrival
            < queue[q].arrival by {
            if q == old_queue.len() && p < old_queue.len() - 1 {
                assert(old_queue[p].arrival < old_queue[old_queue.len() - 1].arrival);
            }
        }
    }
    let t = table(after);
    let u = table(before).insert((id, entry.arrival), entry);
    lemma_position(queue, old_queue.len() as int);
    assert forall|idx: (u32, u128)| #[trigger] t.contains_key(idx) <==> u.contains_key(idx) by {
        if idx.0 == id {
            if has_arrival(queue, idx.1) {
                let p = position(queue, idx.1);
                if p < old_queue.len() {
                    assert(old_queue[p].arrival == idx.1);
                }
            }
            if before.contains_key(id) && has_arrival(old_queue, idx.1) {
                let p = position(old_queue, idx.1);
                assert(queue[p].arrival == idx.1);
            }
        }
    }
    assert forall|idx: (u32, u128)| #[trigger] t.contains_key(idx) implies t[idx] == u[idx] by {
        if idx.0 == id && idx.1 != entry.arrival {
            let p = position(queue, idx.1);
            assert(old_queue[p].arrival == idx.1);
            lemma_position(old_queue, p);
            lemma_position(queue, p);
        }
    }
    assert(t =~= u);
}

/// The entry at the front of a queue leaves as one row of the table.
proof fn lemma_table_pop<M>(
    before: Map<u32, VecDeque<MailboxEntry<M>>>,
    after: Map<u32, VecDeque<MailboxEntry<M>>>,
    id: u32,
)
    requires
        all_sorted(before),
        before.contains_key(id),
        before[id]@.len() > 0,
        after.contains_key(id),
        after[id]@ == before[id]@.subrange(1, before[id]@.len() as int),
        forall|i: u32|
            i != id ==> (#[trigger] after.contains_key(i) <==> before.contains_key(i)) && after[i]
                == before[i],
    ensures
        all_sorted(after),
        table(after) == table(before).remove((id, before[id]@[0].arrival)),
{
    let queue = before[id]@;
    let rest = after[id]@;
    assert(sorted(queue));
    assert(sorted(rest));
    let t = table(after);
    let u = table(before).remove((id, queue[0].arrival));
    assert forall|idx: (u32, u128)| #[trigger] t.contains_key(idx) <==> u.contains_key(idx) by {
        if idx.0 == id {
            if has_arrival(rest, idx.1) {
                let p = position(rest, idx.1);
                assert(queue[p + 1].arrival == idx.1);
            }
            if has_arrival(queue, idx.1) && idx.1 != queue[0].arrival {
                let p = position(queue, idx.1);
                assert(rest[p - 1].arrival == idx.1);
            }
        }
    }
    assert forall|idx: (u32, u128)| #[trigger] t.contains_key(idx) implies t[idx] == u[idx] by {
        if idx.0 == id {
            let p = position(rest, idx.1);
            assert(queue[p + 1].arrival == idx.1);
            lemma_position(rest, p);
            lemma_position(queue, p + 1);
        }
    }
    assert(t =~= u);
}

/// An entry that is changed in place, but for its arrival, is a row replaced.
proof fn lemma_table_update<M>(
    before: Map<u32, VecDeque<MailboxEntry<M>>>,
    after: Map<u32, VecDeque<MailboxEntry<M>>>,
    id: u32,
    p: int,
    entry: MailboxEntry<M>,
)
    requires
        all_sorted(before),
        before.contains_key(id),
        0 <= p < before[id]@.len(),
        entry.arrival == before[id]@[p].arrival,
        after.contains_key(id),
        after[id]@ == before[id]@.update(p, entry),
        forall|i: u32|
            i != id ==> (#[trigger] after.contains_key(i) <==> before.contains_key(i)) && after[i]
                == before[i],
    ensures
        all_sorted(after),
        table(after) == table(before).insert((id, entry.arrival), entry),
{
    let queue = before[id]@;
    let changed = after[id]@;
    assert(sorted(queue));
    assert(sorted(changed));
    let t = table(after);
    let u = table(before).insert((id, entry.arrival), entry);
    lemma_position(changed, p);
    lemma_position(queue, p);
    assert forall|idx: (u32, u128)| #[trigger] t.contains_key(idx) <==> u.contains_key(idx) by {
        if idx.0 == id {
            if has_arrival(changed, idx.1) {
                let q = position(changed, idx.1);
                assert(queue[q].arrival == idx.1);
            }
            if has_arrival(queue, idx.1) {
                let q = position(queue, idx.1);
                assert(changed[q].arrival == idx.1);
            }
        }
    }
    assert forall|idx: (u32, u128)| #[trigger] t.contains_key(idx) implies t[idx] == u[idx] by {
        if idx.0 == id && idx.1 != entry.arrival {
            let q = position(changed, idx.1);
            assert(queue[q].arrival == idx.1);
            lemma_position(changed, q);
            lemma_position(queue, q);
        }
    }
    assert(t =~= u);
}

/// What holds of one entry changed in place, for every way to change it.
proof fn lemma_table_updates<M>(
    before: Map<u32, VecDeque<MailboxEntry<M>>>,
    id: u32,
    p: int,
)
    requires
        all_sorted(before),
        before.contains_key(id),
        0 <= p < before[id]@.len(),
    ensures
        forall|queue: VecDeque<MailboxEntry<M>>|
            queue@ == before[id]@.update(p, queue@[p]) && queue@[p].arrival
                == before[id]@[p].arrival ==> {
                let after = #[trigger] before.insert(id, queue);
                &&& all_sorted(after)
                &&& table(after) == table(before).insert((id, queue@[p].arrival), queue@[p])
                &&& forall|i: u32| #[trigger] queue_len(after, i) == queue_len(before, i)
            },
{
    assert forall|queue: VecDeque<MailboxEntry<M>>|
        queue@ == before[id]@.update(p, queue@[p]) && queue@[p].arrival
            == before[id]@[p].arrival implies {
        let after = #[trigger] before.insert(id, queue);
        &&& all_sorted(after)
        &&& table(after) == table(before).insert((id, queue@[p].arrival), queue@[p])
        &&& forall|i: u32| #[trigger] queue_len(after, i) == queue_len(before, i)
    } by {
        lemma_table_update(before, before.insert(id, queue), id, p, queue@[p]);
    }
}

proof fn lemma_count_push(order: Seq<(u32, u128)>, idx: (u32, u128), id: u32)
    ensures
        count_id(order.push(idx), id) == count_id(order, id) + if idx.0 == id {
            1nat
        } else {
            0nat
        },
{
    assert(order.push(idx).drop_last() =~= order);
}

proof fn lemma_count_remove(order: Seq<(u32, u128)>, k: int, id: u32)
    requires
        0 <= k < order.len(),
    ensures
        count_id(order, id) == count_id(order.remove(k), id) + if order[k].0 == id {
            1nat
        } else {
            0nat
        },
    decreases order.len(),
{
    if k == order.len() - 1 {
        assert(order.remove(k) =~= order.drop_last());
    } else {
        lemma_count_remove(order.drop_last(), k, id);
        assert(order.remove(k).drop_last() =~= order.drop_last().remove(k));
    }
}

spec fn frames_in<M>(
    table: Map<(u32, u128), MailboxEntry<M>>,
    order: Seq<(u32, u128)>,
) -> Seq<MavFrame<M>> {
    Seq::new(order.len(), |k: int| table[order[k]].frame)
}

proof fn lemma_count_frames<M: Message>(
    frames: Seq<MavFrame<M>>,
    order: Seq<(u32, u128)>,
    id: u32,
)
    requires
        frames.len() == order.len(),
        forall|k: int| 0 <= k < order.len() ==> (#[trigger] frames[k]).msg.id() == order[k].0,
    ensures
        count_of(frames, id) == count_id(order, id),
    decreases frames.len(),
{
    if frames.len() > 0 {
        lemma_count_frames(frames.drop_last(), order.drop_last(), id);
    }
}

/// The first frame with the id is the one that has none with the id before it.
proof fn lemma_first_of<M: Message>(frames: Seq<MavFrame<M>>, k: int, id: u32)
    requires
        0 <= k <= frames.len(),
        k < frames.len() ==> frames[k].msg.id() == id,
        forall|j: int| 0 <= j < k ==> (#[trigger] frames[j]).msg.id() != id,
    ensures
        first_of(frames, id) == k,
    decreases frames.len(),
{
    if k > 0 {
        assert(frames[0].msg.id() != id);
        lemma_first_of(frames.skip(1), k - 1, id);
    }
}

/// What cutting an entry out of the list makes of the entry at another place.
proof fn lemma_unlink_at<M: Message>(
    t: Map<(u32, u128), MailboxEntry<M>>,
    t1: Map<(u32, u128), MailboxEntry<M>>,
    t2: Map<(u32, u128), MailboxEntry<M>>,
    t3: Map<(u32, u128), MailboxEntry<M>>,
    order: Seq<(u32, u128)>,
    k: int,
    j: int,
)
    requires
        linked(t, order),
        0 <= k < order.len(),
        t1 == t.remove(order[k]),
        match t[order[k]].prev {
            Some(prev) => t2 == t1.insert(
                prev,
                MailboxEntry { next: t[order[k]].next, ..t1[prev] },
            ),
            None => t2 == t1,
        },
        match t[order[k]].next {
            Some(next) => t3 == t2.insert(
                next,
                MailboxEntry { prev: t[order[k]].prev, ..t2[next] },
            ),
            None => t3 == t2,
        },
        0 <= j < order.len() - 1,
    ensures
        linked_at(t3, order.remove(k), j),
        frames_in(t3, order.remove(k))[j] == frames_in(t, order).remove(k)[j],
{
    let after = order.remove(k);
    let j2 = if j < k { j } else { j + 1 };
    assert(linked_at(t, order, k));
    assert(linked_at(t, order, j2));
    assert(after[j] == order[j2]);
    assert(order[j2] != order[k]);
    assert(t1[order[j2]] == t[order[j2]]);
    if k > 0 {
        assert(j2 != k - 1 ==> order[j2] != order[k - 1]);
    }
    if k + 1 < order.len() {
        assert(j2 != k + 1 ==> order[j2] != order[k + 1]);
    }
}

/// An entry that is cut out of the list leaves the others linked.
proof fn lemma_unlink<M: Message>(
    t: Map<(u32, u128), MailboxEntry<M>>,
    t1: Map<(u32, u128), MailboxEntry<M>>,
    t2: Map<(u32, u128), MailboxEntry<M>>,
    t3: Map<(u32, u128), MailboxEntry<M>>,
    order: Seq<(u32, u128)>,
    k: int,
)
    requires
        linked(t, order),
        0 <= k < order.len(),
        t1 == t.remove(order[k]),
        match t[order[k]].prev {
            Some(prev) => t2 == t1.insert(
                prev,
                MailboxEntry { next: t[order[k]].next, ..t1[prev] },
            ),
            None => t2 == t1,
        },
        match t[order[k]].next {
            Some(next) => t3 == t2.insert(
                next,
                MailboxEntry { prev: t[order[k]].prev, ..t2[next] },
            ),
            None => t3 == t2,
        },
    ensures
        linked(t3, order.remove(k)),
        frames_in(t3, order.remove(k)) == frames_in(t, order).remove(k),
{
    let after = order.remove(k);
    assert(linked_at(t, order, k));
    assert(ordered(after)) by {
        assert forall|i: int, j: int|
            0 <= i < j < after.len() && after[i].0 == after[j].0 implies after[i].1 < after[j].1 by {
            let i2 = if i < k { i } else { i + 1 };
            let j2 = if j < k { j } else { j + 1 };
            assert(after[i] == order[i2] && after[j] == order[j2]);
        }
    }
    assert forall|idx: (u32, u128)| #[trigger] t3.contains_key(idx) <==> after.contains(idx) by {
        assert(t3.contains_key(idx) <==> t1.contains_key(idx)) by {
            if k > 0 {
                assert(order.contains(order[k - 1]));
                assert(t.contains_key(order[k - 1]));
            }
            if k + 1 < order.len() {
                assert(order.contains(order[k + 1]));
                assert(t.contains_key(order[k + 1]));
            }
        }
        if order.contains(idx) && idx != order[k] {
            let j = choose|j: int| 0 <= j < order.len() && order[j] == idx;
            let j2 = if j < k { j } else { j - 1 };
            assert(after[j2] == idx);
        }
        if after.contains(idx) {
            let j = choose|j: int| 0 <= j < after.len() && after[j] == idx;
            let j2 = if j < k { j } else { j + 1 };
            assert(order[j2] == idx);
            assert(order.contains(idx));
            assert(t.contains_key(idx));
        }
    }
    assert forall|j: int| 0 <= j < after.len() implies #[trigger] linked_at(t3, after, j)
        && frames_in(t3, after)[j] == frames_in(t, order).remove(k)[j] by {
        lemma_unlink_at(t, t1, t2, t3, order, k, j);
    }
    assert(frames_in(t3, after) =~= frames_in(t, order).remove(k));
}

/// An entry behind the last one makes the list longer.
proof fn lemma_append<M: Message>(
    t: Map<(u32, u128), MailboxEntry<M>>,
    t1: Map<(u32, u128), MailboxEntry<M>>,
    t2: Map<(u32, u128), MailboxEntry<M>>,
    order: Seq<(u32, u128)>,
    idx: (u32, u128),
    entry: MailboxEntry<M>,
)
    requires
        linked(t, order),
        forall|i: int| 0 <= i < order.len() && order[i].0 == idx.0 ==> order[i].1 < idx.1,
        entry.arrival == idx.1,
        entry.frame.msg.id() == idx.0,
        entry.prev == at(order, order.len() - 1),
        entry.next is None,
        t1 == t.insert(idx, entry),
        match entry.prev {
            Some(last) => t2 == t1.insert(last, MailboxEntry { next: Some(idx), ..t1[last] }),
            None => t2 == t1,
        },
    ensures
        linked(t2, order.push(idx)),
        frames_in(t2, order.push(idx)) == frames_in(t, order).push(entry.frame),
{
    let after = order.push(idx);
    assert forall|i: (u32, u128)| #[trigger] t2.contains_key(i) <==> after.contains(i) by {
        if order.len() > 0 {
            assert(order.contains(order[order.len() - 1]));
            assert(t.contains_key(order[order.len() - 1]));
        }
        if order.contains(i) {
            let j = choose|j: int| 0 <= j < order.len() && order[j] == i;
            assert(after[j] == i);
        }
        assert(after[order.len() as int] == idx);
        if after.contains(i) && i != idx {
            let j = choose|j: int| 0 <= j < after.len() && after[j] == i;
            assert(order[j] == i);
        }
        assert(t.contains_key(i) <==> order.contains(i));
    }
    assert forall|j: int| 0 <= j < after.len() implies #[trigger] linked_at(t2, after, j)
        && frames_in(t2, after)[j] == frames_in(t, order).push(entry.frame)[j] by {
        if j < order.len() {
            assert(linked_at(t, order, j));
            assert(after[j] == order[j]);
            assert(order[j] != idx);
            if j != order.len() - 1 {
                assert(order[j] != order[order.len() - 1]);
            }
        } else if order.len() > 0 {
            assert(order[order.len() - 1] != idx);
        }
    }
    assert(frames_in(t2, after) =~= frames_in(t, order).push(entry.frame));
}

spec fn queue_frames<M>(entries: Map<u32, VecDeque<MailboxEntry<M>>>, id: u32) -> Seq<MavFrame<M>> {
    Seq::new(queue_len(entries, id), |p: int| entries[id]@[p].frame)
}

spec fn queue_arrivals<M>(entries: Map<u32, VecDeque<MailboxEntry<M>>>, id: u32) -> Seq<u128> {
    Seq::new(queue_len(entries, id), |p: int| entries[id]@[p].arrival)
}

/// The arrivals with the given id in the list.
spec fn arrivals_in(order: Seq<(u32, u128)>, id: u32) -> Seq<u128>
    decreases order.len(),
{
    if order.len() == 0 {
        Seq::empty()
    } else if order.last().0 == id {
        arrivals_in(order.drop_last(), id).push(order.last().1)
    } else {
        arrivals_in(order.drop_last(), id)
    }
}

/// Whether each arrival is later than those before it.
pub open spec fn increasing(arrivals: Seq<u128>) -> bool {
    forall|p: int, q: int| 0 <= p < q < arrivals.len() ==> arrivals[p] < arrivals[q]
}

proof fn lemma_arrivals_in(order: Seq<(u32, u128)>, id: u32)
    requires
        ordered(order),
    ensures
        increasing(arrivals_in(order, id)),
        forall|t: u128| #[trigger]
            arrivals_in(order, id).contains(t) <==> order.contains((id, t)),
    decreases order.len(),
{
    if order.len() > 0 {
        let front = order.drop_last();
        let earlier = arrivals_in(front, id);
        let arrivals = arrivals_in(order, id);
        lemma_arrivals_in(front, id);
        assert forall|p: int, q: int| 0 <= p < q < arrivals.len() implies arrivals[p]
            < arrivals[q] by {
            if q == earlier.len() {
                assert(earlier.contains(earlier[p]));
                assert(front.contains((id, earlier[p])));
            }
        }
        assert forall|t: u128| #[trigger] arrivals.contains(t) <==> order.contains((id, t)) by {
            assert(earlier.contains(t) <==> front.contains((id, t)));
            if order.contains((id, t)) {
                let k = choose|k: int| 0 <= k < order.len() && order[k] == (id, t);
                if k < front.len() {
                    assert(front[k] == (id, t));
                    let p = choose|p: int| 0 <= p < earlier.len() && earlier[p] == t;
                    assert(arrivals[p] == t);
                } else {
                    assert(arrivals[earlier.len() as int] == t);
                }
            }
            if arrivals.contains(t) {
                let p = choose|p: int| 0 <= p < arrivals.len() && arrivals[p] == t;
                if p < earlier.len() {
                    assert(earlier[p] == t);
                    let k = choose|k: int| 0 <= k < front.len() && front[k] == (id, t);
                    assert(order[k] == (id, t));
                } else {
                    assert(order[order.len() - 1] == (id, t));
                }
            }
        }
    }
}

/// What is in increasing order is determined by its elements.
proof fn lemma_increasing_unique(a: Seq<u128>, b: Seq<u128>)
    requires
        increasing(a),
        increasing(b),
        forall|t: u128| #[trigger] a.contains(t) <==> b.contains(t),
    ensures
        a == b,
    decreases a.len(),
{
    if a.len() == 0 {
        if b.len() > 0 {
            assert(b.contains(b[0]));
            assert(a.contains(b[0]));
        }
        assert(a =~= b);
    } else {
        assert(a.contains(a.last()));
        assert(b.contains(a.last()));
        assert(b.contains(b.last()));
        assert(a.contains(b.last()));
        let p = choose|p: int| 0 <= p < b.len() && b[p] == a.last();
        let q = choose|q: int| 0 <= q < a.len() && a[q] == b.last();
        assert(p == b.len() - 1 && q == a.len() - 1) by {
            assert(p < b.len() - 1 ==> b[p] < b[b.len() - 1]);
            assert(q < a.len() - 1 ==> a[q] < a[a.len() - 1]);
        }
        assert forall|t: u128| #[trigger] a.drop_last().contains(t) <==> b.drop_last().contains(
            t,
        ) by {
            if a.drop_last().contains(t) {
                let i = choose|i: int| 0 <= i < a.len() - 1 && a.drop_last()[i] == t;
                assert(a[i] == t && a[i] < a[a.len() - 1]);
                assert(a.contains(t));
                let j = choose|j: int| 0 <= j < b.len() && b[j] == t;
                assert(b.drop_last()[j] == t);
            }
            if b.drop_last().contains(t) {
                let i = choose|i: int| 0 <= i < b.len() - 1 && b.drop_last()[i] == t;
                assert(b[i] == t && b[i] < b[b.len() - 1]);
                assert(b.contains(t));
                assert(a.contains(t));
                let j = choose|j: int| 0 <= j < a.len() && a[j] == t;
                assert(a.drop_last()[j] == t);
            }
        }
        lemma_increasing_unique(a.drop_last(), b.drop_last());
        assert(a =~= a.drop_last().push(a.last()));
        assert(b =~= b.drop_last().push(b.last()));
    }
}

/// The frames of an id are those at the arrivals of the id.
proof fn lemma_frames_of_id<M: Message>(
    table: Map<(u32, u128), MailboxEntry<M>>,
    order: Seq<(u32, u128)>,
    id: u32,
)
    requires
        forall|k: int|
            0 <= k < order.len() ==> table[#[trigger] order[k]].frame.msg.id() == order[k].0,
    ensures
        of_id(frames_in(table, order), id) == Seq::new(
            arrivals_in(order, id).len(),
            |p: int| table[(id, arrivals_in(order, id)[p])].frame,
        ),
    decreases order.len(),
{
    let frames = frames_in(table, order);
    let expected = Seq::new(
        arrivals_in(order, id).len(),
        |p: int| table[(id, arrivals_in(order, id)[p])].frame,
    );
    if order.len() > 0 {
        let front = order.drop_last();
        assert forall|k: int| 0 <= k < front.len() implies table[#[trigger] front[k]].frame.msg.id()
            == front[k].0 by {
            assert(front[k] == order[k]);
        }
        lemma_frames_of_id(table, front, id);
        assert(frames.drop_last() =~= frames_in(table, front));
        assert(order.last() == order[order.len() - 1]);
        assert(frames.last() == table[order.last()].frame);
    }
    assert(of_id(frames, id) =~= expected);
}

impl<M: Message> View for MailboxInner<M> {
    type V = Seq<MavFrame<M>>;

    /// The frames in the mailbox in the order of their arrival.
    closed spec fn view(&self) -> Seq<MavFrame<M>> {
        frames_in(table(self.entries@), self.order@)
    }
}

/// Two mailboxes that hold the same arrivals of an id have the same latest one.
proof fn lemma_same_latest<M: Message>(a: MailboxInner<M>, b: MailboxInner<M>, id: u32)
    requires
        a.wf(),
        b.wf(),
        forall|idx: (u32, u128)| idx.0 == id ==> (a.order@.contains(idx) <==> b.order@.contains(idx)),
    ensures
        a.latest(id) == b.latest(id),
{
    if queue_len(a.entries@, id) > 0 {
        a.lemma_latest(id);
        let idx = (id, a.latest(id)->0);
        assert(table(b.entries@).contains_key(idx));
    }
    if queue_len(b.entries@, id) > 0 {
        b.lemma_latest(id);
        let idx = (id, b.latest(id)->0);
        assert(table(a.entries@).contains_key(idx));
    }
}

/// Whether putting a frame into a mailbox when the clock shows `now` comes to
/// `inserted` and makes the mailbox `before` the mailbox `after`. It is refused
/// only if no arrival is left for it.
pub open spec fn inserts_reading<M: Message>(
    before: MailboxInner<M>,
    frame: MavFrame<M>,
    now: u128,
    inserted: Inserted<M>,
    after: MailboxInner<M>,
) -> bool {
    let id = frame.msg.id();
    let arrival = later_arrival(before.latest(id), now);
    &&& after.wf()
    &&& forall|other: u32|
        other != id ==> #[trigger] after.latest(other) == before.latest(other)
    &&& match inserted {
        Inserted::Added => {
            &&& arrival is Some
            &&& count_of(before@, id) < MAILBOX_MAX_SIZE
            &&& after@ == with_arrival(before@, frame)
            &&& after.latest(id) == arrival
        },
        Inserted::Replaced(evicted) => {
            &&& arrival is Some
            &&& count_of(before@, id) >= MAILBOX_MAX_SIZE
            &&& evicted == before@[first_of(before@, id)]
            &&& after@ == with_arrival(before@, frame)
            &&& after.latest(id) == arrival
        },
        Inserted::Refused(back) => {
            &&& arrival is None
            &&& back == frame
            &&& after@ == before@
            &&& after.latest(id) == before.latest(id)
        },
    }
}

/// Whether putting a frame into a mailbox, whatever the clock shows, comes to
/// `inserted` and makes the mailbox `before` the mailbox `after`.
pub open spec fn inserts_now<M: Message>(
    before: MailboxInner<M>,
    frame: MavFrame<M>,
    inserted: Inserted<M>,
    after: MailboxInner<M>,
) -> bool {
    exists|now: u128|
        now < CLOCK_RANGE && #[trigger] inserts_reading(before, frame, now, inserted, after)
}

impl<M: Message> MailboxInner<M> {
    /// The list runs through exactly the entries of the queues, and no queue
    /// is longer than it may be.
    pub closed spec fn wf(&self) -> bool {
        &&& all_sorted(self.entries@)
        &&& linked(table(self.entries@), self.order@)
        &&& self.first_msg == at(self.order@, 0)
        &&& self.last_msg == at(self.order@, self.order@.len() - 1)
        &&& forall|id: u32| #[trigger]
            queue_len(self.entries@, id) == count_id(self.order@, id) && queue_len(
                self.entries@,
                id,
            ) <= MAILBOX_MAX_SIZE
    }

    /// The arrival of the latest frame with the given message id, if there is one.
    pub closed spec fn latest(&self, id: u32) -> Option<u128> {
        if queue_len(self.entries@, id) == 0 {
            None
        } else {
            Some(self.entries@[id]@.last().arrival)
        }
    }

    /// The frames in the queue of a message id.
    pub closed spec fn queued(&self, id: u32) -> Seq<MavFrame<M>> {
        queue_frames(self.entries@, id)
    }

    /// The arrivals of the frames in the queue of a message id.
    pub closed spec fn arrivals(&self, id: u32) -> Seq<u128> {
        queue_arrivals(self.entries@, id)
    }

    /// The addresses of the entries, in the order of their arrival.
    pub closed spec fn addresses(&self) -> Seq<(u32, u128)> {
        self.order@
    }

    /// The address that is recorded of the frame that arrived first.
    pub closed spec fn first_address(&self) -> Option<(u32, u128)> {
        self.first_msg
    }

    /// The address that is recorded of the frame that arrived last.
    pub closed spec fn last_address(&self) -> Option<(u32, u128)> {
        self.last_msg
    }

    /// The address that an entry has of the one that arrived before it.
    pub closed spec fn previous_address(&self, idx: (u32, u128)) -> Option<(u32, u128)> {
        table(self.entries@)[idx].prev
    }

    /// The address that an entry has of the one that arrived after it.
    pub closed spec fn next_address(&self, idx: (u32, u128)) -> Option<(u32, u128)> {
        table(self.entries@)[idx].next
    }

    /// An empty mailbox.
    pub fn new() -> (mailbox: MailboxInner<M>)
        ensures
            mailbox.wf(),
            mailbox@ == Seq::<MavFrame<M>>::empty(),
            forall|id: u32| #[trigger] mailbox.latest(id) is None,
    {
        let mailbox = MailboxInner {
            entries: HashMap::new(),
            last_msg: None,
            first_msg: None,
            epoch: instant_now(),
            order: Ghost(Seq::empty()),
        };
        assert(table(mailbox.entries@) =~= Map::empty());
        assert(mailbox@ =~= Seq::empty());
        mailbox
    }

    /// Where in a queue the entry with the given arrival is.
    fn binary_search(deque: &VecDeque<MailboxEntry<M>>, arrival: u128) -> (index: usize)
        requires
            sorted(deque@),
            has_arrival(deque@, arrival),
        ensures
            index < deque@.len(),
            deque@[index as int].arrival == arrival,
    {
        let ghost p = position(deque@, arrival);
        let mut low: usize = 0;
        let mut high: usize = deque.len();
        while low < high
            invariant
                low <= p < high <= deque@.len(),
                deque@[p].arrival == arrival,
                sorted(deque@),
            decreases high - low,
        {
            let mid: usize = low + (high - low) / 2;
            if deque[mid].arrival == arrival {
                return mid;
            } else if deque[mid].arrival < arrival {
                low = mid + 1;
            } else {
                high = mid;
            }
        }
        low
    }

    /// The entry at an address, to be changed in place. It must only be called
    /// with valid addresses.
    fn get_entry_mut(&mut self, idx: (u32, u128)) -> (entry: &mut MailboxEntry<M>)
        requires
            all_sorted(old(self).entries@),
            table(old(self).entries@).contains_key(idx),
        ensures
            *entry == table(old(self).entries@)[idx],
            entry.arrival == idx.1,
            final(self).first_msg == old(self).first_msg,
            final(self).last_msg == old(self).last_msg,
            final(self).order == old(self).order,
            final(entry).arrival == idx.1 ==> {
                &&& all_sorted(final(self).entries@)
                &&& table(final(self).entries@) == table(old(self).entries@).insert(
                    idx,
                    *final(entry),
                )
                &&& forall|id: u32| #[trigger]
                    queue_len(final(self).entries@, id) == queue_len(old(self).entries@, id)
            },
    {
        broadcast use vstd::std_specs::hash::group_hash_axioms;

        match self.entries.entry(idx.0) {
            Entry::Occupied(occupied) => {
                let deque = occupied.into_mut();
                let index: usize = Self::binary_search(deque, idx.1);
                let entry = deque_get_mut(deque, index);
                proof {
                    lemma_position(old(self).entries@[idx.0]@, index as int);
                    lemma_table_updates(old(self).entries@, idx.0, index as int);
                }
                entry
            },
            Entry::Vacant(_) => vstd::pervasive::unreached(),
        }
    }

    /// Takes the oldest frame with the given message id out of the mailbox.
    fn pop_front_id(&mut self, id: u32) -> (popped: Option<MailboxEntry<M>>)
        requires
            old(self).wf(),
        ensures
            final(self).wf(),
            final(self)@ == without_first(old(self)@, id),
            match popped {
                Some(entry) => {
                    &&& first_of(old(self)@, id) < old(self)@.len()
                    &&& entry.frame == old(self)@[first_of(old(self)@, id)]
                },
                None => first_of(old(self)@, id) == old(self)@.len(),
            },
            count_of(final(self)@, id) == count_of(old(self)@, id) - (if popped is Some {
                1int
            } else {
                0int
            }),
            final(self).latest(id) == (if count_of(old(self)@, id) > 1 {
                old(self).latest(id)
            } else {
                None
            }),
            forall|other: u32|
                other != id ==> #[trigger] final(self).latest(other) == old(self).latest(other),
    {
        broadcast use vstd::std_specs::hash::group_hash_axioms;

        let ghost before = *self;
        proof {
            self.lemma_counts(id);
        }
        let entry = match self.entries.entry(id) {
            Entry::Occupied(occupied) => {
                let deque = occupied.into_mut();
                if deque.len() == 0 {
                    proof {
                        before.lemma_no_first(id);
                    }
                    assert(self.entries@ =~= before.entries@);
                    return None;
                }
                match deque.pop_front() {
                    Some(entry) => entry,
                    None => vstd::pervasive::unreached(),
                }
            },
            Entry::Vacant(_) => {
                proof {
                    before.lemma_no_first(id);
                }
                assert(self.entries@ =~= before.entries@);
                return None;
            },
        };
        let ghost t = table(before.entries@);
        let ghost idx = (id, entry.arrival);
        let ghost k = before.lemma_front(id);
        let ghost t1 = table(self.entries@);
        proof {
            lemma_table_pop(before.entries@, self.entries@, id);
            assert(linked_at(t, before.order@, k));
            if k > 0 {
                assert(before.order@.contains(before.order@[k - 1]));
                assert(t.contains_key(before.order@[k - 1]));
            }
            if k + 1 < before.order@.len() {
                assert(before.order@.contains(before.order@[k + 1]));
                assert(t.contains_key(before.order@[k + 1]));
            }
        }
        if let Some(prev) = entry.prev {
            self.get_entry_mut(prev).next = entry.next;
        } else {
            self.first_msg = entry.next;
        }
        let ghost t2 = table(self.entries@);
        if let Some(next) = entry.next {
            self.get_entry_mut(next).prev = entry.prev;
        } else {
            self.last_msg = entry.prev;
        }
        proof {
            let t3 = table(self.entries@);
            lemma_unlink(t, t1, t2, t3, before.order@, k);
            self.order@ = before.order@.remove(k);
            assert forall|i: u32| #[trigger]
                queue_len(self.entries@, i) == count_id(self.order@, i) && queue_len(
                    self.entries@,
                    i,
                ) <= MAILBOX_MAX_SIZE by {
                lemma_count_remove(before.order@, k, i);
                assert(queue_len(before.entries@, i) == count_id(before.order@, i));
            }
            self.lemma_counts(id);
            if before.entries@[id]@.len() > 1 {
                before.lemma_latest(id);
                self.lemma_latest(id);
                let latest = (id, before.latest(id)->0);
                let j = choose|j: int| 0 <= j < before.order@.len() && before.order@[j] == latest;
                assert(self.order@[if j < k { j } else { j - 1 }] == latest);
            }
            assert forall|other: u32| other != id implies #[trigger] self.latest(other)
                == before.latest(other) by {
                assert forall|i: (u32, u128)| i.0 == other implies (self.order@.contains(i)
                    <==> before.order@.contains(i)) by {
                    if before.order@.contains(i) {
                        let j = choose|j: int| 0 <= j < before.order@.len() && before.order@[j] == i;
                        assert(self.order@[if j < k { j } else { j - 1 }] == i);
                    }
                }
                lemma_same_latest(before, *self, other);
            }
        }
        Some(entry)
    }

    proof fn lemma_counts(&self, id: u32)
        requires
            self.wf(),
        ensures
            count_of(self@, id) == queue_len(self.entries@, id),
    {
        let t = table(self.entries@);
        assert forall|k: int| 0 <= k < self.order@.len() implies (#[trigger] self@[k]).msg.id()
            == self.order@[k].0 by {
            assert(linked_at(t, self.order@, k));
        }
        lemma_count_frames(self@, self.order@, id);
        assert(queue_len(self.entries@, id) == count_id(self.order@, id));
    }

    pub(crate) proof fn lemma_capacity(&self, id: u32)
        requires
            self.wf(),
        ensures
            count_of(self@, id) <= MAILBOX_MAX_SIZE,
    {
        self.lemma_counts(id);
        assert(queue_len(self.entries@, id) <= MAILBOX_MAX_SIZE);
    }

    pub(crate) proof fn lemma_queues(&self, id: u32)
        requires
            self.wf(),
        ensures
            self.queued(id) == of_id(self@, id),
            self.arrivals(id).len() == self.queued(id).len(),
            increasing(self.arrivals(id)),
            forall|t: u128| #[trigger]
                self.arrivals(id).contains(t) <==> self.addresses().contains((id, t)),
            self.latest(id) == (if self.arrivals(id).len() == 0 {
                None
            } else {
                Some(self.arrivals(id).last())
            }),
    {
        let t = table(self.entries@);
        let order = self.order@;
        let arrivals = self.arrivals(id);
        lemma_arrivals_in(order, id);
        assert(increasing(arrivals)) by {
            if self.entries@.contains_key(id) {
                assert(sorted(self.entries@[id]@));
            }
        }
        assert forall|a: u128| #[trigger] arrivals.contains(a) <==> arrivals_in(
            order,
            id,
        ).contains(a) by {
            assert(t.contains_key((id, a)) <==> order.contains((id, a)));
            if arrivals.contains(a) {
                let p = choose|p: int| 0 <= p < arrivals.len() && arrivals[p] == a;
                assert(self.entries@[id]@[p].arrival == a);
                assert(t.contains_key((id, a)));
            }
            if t.contains_key((id, a)) {
                let p = position(self.entries@[id]@, a);
                assert(self.entries@[id]@[p].arrival == a);
                assert(arrivals[p] == a);
            }
        }
        lemma_increasing_unique(arrivals, arrivals_in(order, id));
        assert forall|k: int| 0 <= k < order.len() implies t[#[trigger] order[k]].frame.msg.id()
            == order[k].0 by {
            assert(linked_at(t, order, k));
        }
        lemma_frames_of_id(t, order, id);
        assert forall|p: int| 0 <= p < arrivals.len() implies t[(id, #[trigger] arrivals[p])]
            == self.entries@[id]@[p] by {
            lemma_position(self.entries@[id]@, p);
        }
        assert(self.queued(id) =~= of_id(self@, id));
    }

    pub(crate) proof fn lemma_links(&self)
        requires
            self.wf(),
        ensures
            self.addresses().len() == self@.len(),
            self.addresses().no_duplicates(),
            self.first_address() == at(self.addresses(), 0),
            self.last_address() == at(self.addresses(), self.addresses().len() - 1),
            forall|k: int|
                0 <= k < self.addresses().len() ==> {
                    let idx = #[trigger] self.addresses()[k];
                    &&& idx.0 == self@[k].msg.id()
                    &&& self.previous_address(idx) == at(self.addresses(), k - 1)
                    &&& self.next_address(idx) == at(self.addresses(), k + 1)
                },
    {
        assert forall|k: int| 0 <= k < self.addresses().len() implies {
            let idx = #[trigger] self.addresses()[k];
            &&& idx.0 == self@[k].msg.id()
            &&& self.previous_address(idx) == at(self.addresses(), k - 1)
            &&& self.next_address(idx) == at(self.addresses(), k + 1)
        } by {
            assert(linked_at(table(self.entries@), self.order@, k));
        }
    }

    /// The latest arrival is in the list, and no other one with its id is later.
    proof fn lemma_latest(&self, id: u32)
        requires
            self.wf(),
            queue_len(self.entries@, id) > 0,
        ensures
            self.latest(id) is Some,
            self.order@.contains((id, self.latest(id)->0)),
            forall|k: int|
                0 <= k < self.order@.len() && (#[trigger] self.order@[k]).0 == id
                    ==> self.order@[k].1 <= self.latest(id)->0,
    {
        let t = table(self.entries@);
        let queue = self.entries@[id]@;
        lemma_position(queue, queue.len() - 1);
        assert(t.contains_key((id, queue.last().arrival)));
        assert forall|k: int|
            0 <= k < self.order@.len() && (#[trigger] self.order@[k]).0 == id implies self.order@[k].1
            <= queue.last().arrival by {
            assert(self.order@.contains(self.order@[k]));
            assert(t.contains_key(self.order@[k]));
            let p = position(queue, self.order@[k].1);
            assert(queue[p].arrival == self.order@[k].1);
        }
    }

    /// With nothing in the queue, no frame has the id.
    proof fn lemma_no_first(&self, id: u32)
        requires
            self.wf(),
            queue_len(self.entries@, id) == 0,
        ensures
            first_of(self@, id) == self@.len(),
    {
        let t = table(self.entries@);
        assert forall|k: int| 0 <= k < self@.len() implies (#[trigger] self@[k]).msg.id()
            != id by {
            assert(linked_at(t, self.order@, k));
            if self.order@[k].0 == id {
                assert(self.order@.contains(self.order@[k]));
                assert(t.contains_key(self.order@[k]));
            }
        }
        lemma_first_of(self@, self@.len() as int, id);
    }

    /// The entry at the front of a queue is the first one with its id.
    proof fn lemma_front(&self, id: u32) -> (k: int)
        requires
            self.wf(),
            queue_len(self.entries@, id) > 0,
        ensures
            0 <= k < self.order@.len(),
            self.order@[k] == (id, self.entries@[id]@[0].arrival),
            table(self.entries@)[self.order@[k]] == self.entries@[id]@[0],
            first_of(self@, id) == k,
    {
        let t = table(self.entries@);
        let queue = self.entries@[id]@;
        let idx = (id, queue[0].arrival);
        lemma_position(queue, 0);
        assert(t.contains_key(idx));
        let k = choose|k: int| 0 <= k < self.order@.len() && self.order@[k] == idx;
        assert forall|j: int| 0 <= j < k implies (#[trigger] self@[j]).msg.id() != id by {
            assert(linked_at(t, self.order@, j));
            if self.order@[j].0 == id {
                assert(self.order@[j].1 < self.order@[k].1);
                assert(self.order@.contains(self.order@[j]));
                assert(t.contains_key(self.order@[j]));
                let p = position(queue, self.order@[j].1);
                assert(queue[p].arrival == self.order@[j].1);
            }
        }
        assert(linked_at(t, self.order@, k));
        lemma_first_of(self@, k, id);
        k
    }

    /// An arrival for a frame with the given message id that is later than all
    /// those of the id, as close to the clock reading as can be.
    fn arrival_after(&self, id: u32, now: u128) -> (arrival: Option<u128>)
        requires
            self.wf(),
        ensures
            arrival == later_arrival(self.latest(id), now),
    {
        broadcast use vstd::std_specs::hash::group_hash_axioms;

        match self.entries.get(&id) {
            Some(deque) => {
                let len: usize = deque.len();
                if len == 0 {
                    return Some(now);
                }
                let latest: u128 = deque[len - 1].arrival;
                if latest < now {
                    Some(now)
                } else if latest < u128::MAX {
                    Some(latest + 1)
                } else {
                    None
                }
            },
            None => Some(now),
        }
    }

    /// Puts a frame into the mailbox that has arrived at the given time. The
    /// time must tell the frame from all others with its message id, and come
    /// after theirs: the two together are the address by which the neighbours
    /// know the entry. The frame that has to make room is handed out.
    pub fn insert_at(&mut self, frame: MavFrame<M>, arrival: u128) -> (evicted: Option<MavFrame<M>>)
        requires
            old(self).wf(),
            old(self).latest(frame.msg.id()) matches Some(latest) ==> latest < arrival,
        ensures
            final(self).wf(),
            final(self)@ == with_arrival(old(self)@, frame),
            evicted == (if count_of(old(self)@, frame.msg.id()) >= MAILBOX_MAX_SIZE {
                Some(old(self)@[first_of(old(self)@, frame.msg.id())])
            } else {
                None
            }),
            final(self).latest(frame.msg.id()) == Some(arrival),
            forall|other: u32|
                other != frame.msg.id() ==> #[trigger] final(self).latest(other) == old(self).latest(
                    other,
                ),
    {
        broadcast use vstd::std_specs::hash::group_hash_axioms;

        let id: u32 = frame.msg.message_id();
        proof {
            self.lemma_counts(id);
        }
        let full = match self.entries.get(&id) {
            Some(deque) => deque.len() >= MAILBOX_MAX_SIZE,
            None => false,
        };
        proof {
            if full {
                self.lemma_front(id);
            }
            assert(queue_len(self.entries@, id) <= MAILBOX_MAX_SIZE);
        }
        let evicted = if full {
            match self.pop_front_id(id) {
                Some(entry) => Some(entry.frame),
                None => None,
            }
        } else {
            None
        };
        let ghost between = *self;
        let ghost t = table(between.entries@);
        let ghost order = between.order@;
        let entry_idx = (id, arrival);
        let entry = MailboxEntry { frame, arrival, prev: self.last_msg, next: None };
        let ghost new_entry = entry;
        proof {
            between.lemma_counts(id);
            if queue_len(between.entries@, id) > 0 {
                between.lemma_latest(id);
            }
            assert forall|i: int| 0 <= i < order.len() && order[i].0 == id implies order[i].1
                < arrival by {
                assert(order.contains(order[i]));
                assert(t.contains_key(order[i]));
            }
            if order.len() > 0 {
                assert(order.contains(order[order.len() - 1]));
                assert(t.contains_key(order[order.len() - 1]));
            }
        }
        self.entries.entry(id).or_insert(VecDeque::new()).push_back(entry);
        let ghost t1 = table(self.entries@);
        proof {
            lemma_table_push(
                between.entries@,
                self.entries@,
                id,
                if between.entries@.contains_key(id) {
                    between.entries@[id]@
                } else {
                    Seq::empty()
                },
                new_entry,
            );
        }
        let ghost pushed = self.entries@;
        // The previously last entry now points to the newly added one.
        if let Some(idx) = self.last_msg {
            self.get_entry_mut(idx).next = Some(entry_idx);
        }
        self.last_msg = Some(entry_idx);
        if self.first_msg.is_none() {
            self.first_msg = Some(entry_idx);
        }
        proof {
            lemma_append(t, t1, table(self.entries@), order, entry_idx, new_entry);
            self.order@ = order.push(entry_idx);
            assert forall|i: u32| #[trigger]
                queue_len(self.entries@, i) == count_id(self.order@, i) && queue_len(
                    self.entries@,
                    i,
                ) <= MAILBOX_MAX_SIZE by {
                lemma_count_push(order, entry_idx, i);
                assert(queue_len(between.entries@, i) == count_id(order, i));
                assert(queue_len(pushed, i) == queue_len(between.entries@, i) + if i == id {
                    1nat
                } else {
                    0nat
                });
                assert(queue_len(self.entries@, i) == queue_len(pushed, i));
            }
            self.lemma_latest(id);
            assert(self.order@[order.len() as int] == entry_idx);
            let latest = (id, self.latest(id)->0);
            let j = choose|j: int| 0 <= j < self.order@.len() && self.order@[j] == latest;
            assert(j < order.len() ==> order[j] == latest);
            assert forall|other: u32| other != id implies #[trigger] self.latest(other)
                == between.latest(other) by {
                assert forall|i: (u32, u128)| i.0 == other implies (self.order@.contains(i)
                    <==> order.contains(i)) by {
                    if order.contains(i) {
                        let j = choose|j: int| 0 <= j < order.len() && order[j] == i;
                        assert(self.order@[j] == i);
                    }
                }
                lemma_same_latest(between, *self, other);
            }
        }
        evicted
    }

    /// Puts a frame into the mailbox that has arrived when the clock showed
    /// `now`. Where that does not tell it from an earlier frame with its message
    /// id, it counts as arrived right after that one.
    pub fn insert_reading(&mut self, frame: MavFrame<M>, now: u128) -> (inserted: Inserted<M>)
        requires
            old(self).wf(),
        ensures
            inserts_reading(*old(self), frame, now, inserted, *final(self)),
    {
        let id: u32 = frame.msg.message_id();
        match self.arrival_after(id, now) {
            Some(arrival) => match self.insert_at(frame, arrival) {
                Some(evicted) => Inserted::Replaced(evicted),
                None => Inserted::Added,
            },
            None => Inserted::Refused(frame),
        }
    }

    /// Puts a frame into the mailbox that has arrived now.
    pub fn insert_now(&mut self, frame: MavFrame<M>) -> (inserted: Inserted<M>)
        requires
            old(self).wf(),
        ensures
            inserts_now(*old(self), frame, inserted, *final(self)),
    {
        let now: u128 = as_nanos(&elapsed(&self.epoch));
        self.insert_reading(frame, now)
    }

    /// Whether there is no frame in the mailbox.
    pub fn is_empty(&self) -> (empty: bool)
        requires
            self.wf(),
        ensures
            empty == (self@.len() == 0),
    {
        self.first_msg.is_none()
    }

    /// Takes the frame that arrived first, or nothing once the mailbox was
    /// closed. A permit is a promise that there is a frame to take.
    pub fn next(&mut self, permit: Permit) -> (taken: Option<MavFrame<M>>)
        requires
            old(self).wf(),
            permit is Acquired ==> old(self)@.len() > 0,
        ensures
            final(self).wf(),
            match permit {
                Permit::Acquired => {
                    &&& taken == Some(old(self)@[0])
                    &&& final(self)@ == old(self)@.skip(1)
                },
                Permit::Closed => taken is None && final(self)@ == old(self)@,
            },
            forall|id: u32| #[trigger]
                final(self).latest(id) == (if permit is Acquired && old(self)@[0].msg.id() == id
                    && count_of(old(self)@, id) <= 1 {
                    None
                } else {
                    old(self).latest(id)
                }),
    {
        match permit {
            Permit::Closed => None,
            Permit::Acquired => {
                let ghost before = *self;
                match self.first_msg {
                    Some((id, _)) => {
                        proof {
                            assert(linked_at(table(before.entries@), before.order@, 0));
                            lemma_first_of(before@, 0, id);
                            assert(before@.remove(0) =~= before@.skip(1));
                        }
                        match self.pop_front_id(id) {
                            Some(entry) => Some(entry.frame),
                            None => None,
                        }
                    },
                    None => None,
                }
            },
        }
    }

    /// Takes the oldest frame with the given message id. The permit is used up
    /// only if there is one.
    pub fn next_with_id(&mut self, id: u32, permit: Permit) -> (found: Lookup<M>)
        requires
            old(self).wf(),
        ensures
            final(self).wf(),
            match permit {
                Permit::Acquired => {
                    &&& final(self)@ == without_first(old(self)@, id)
                    &&& match found {
                        Lookup::Found(frame) => {
                            &&& first_of(old(self)@, id) < old(self)@.len()
                            &&& frame == old(self)@[first_of(old(self)@, id)]
                        },
                        Lookup::WaitAgain => first_of(old(self)@, id) == old(self)@.len(),
                        Lookup::Closed => false,
                    }
                },
                Permit::Closed => found is Closed && final(self)@ == old(self)@,
            },
            forall|other: u32| #[trigger]
                final(self).latest(other) == (if permit is Acquired && other == id && count_of(
                    old(self)@,
                    id,
                ) <= 1 {
                    None
                } else {
                    old(self).latest(other)
                }),
    {
        match permit {
            Permit::Closed => Lookup::Closed,
            Permit::Acquired => match self.pop_front_id(id) {
                Some(entry) => Lookup::Found(entry.frame),
                None => Lookup::WaitAgain,
            },
        }
    }
}

} // verus!
