//! What holds of the mailbox over many calls.
use crate::mailbox::{
    at, count_of, first_of, increasing, inserts_now, inserts_reading, with_arrival, without_first, Inserted,
    MailboxInner, CLOCK_RANGE, MAILBOX_MAX_SIZE,
};
use crate::message::{MavFrame, Message};
use vstd::prelude::*;

verus! {

/// The frames with the given message id, in their order.
pub open spec fn of_id<M: Message>(frames: Seq<MavFrame<M>>, id: u32) -> Seq<MavFrame<M>>
    decreases frames.len(),
{
    if frames.len() == 0 {
        Seq::empty()
    } else if frames.last().msg.id() == id {
        of_id(frames.drop_last(), id).push(frames.last())
    } else {
        of_id(frames.drop_last(), id)
    }
}

/// What an empty mailbox holds after the given frames have arrived.
pub open spec fn after_arrivals<M: Message>(arrivals: Seq<MavFrame<M>>) -> Seq<MavFrame<M>>
    decreases arrivals.len(),
{
    if arrivals.len() == 0 {
        Seq::empty()
    } else {
        with_arrival(after_arrivals(arrivals.drop_last()), arrivals.last())
    }
}

/// The last `n` items.
pub open spec fn most_recent<T>(items: Seq<T>, n: int) -> Seq<T> {
    if items.len() <= n {
        items
    } else {
        items.skip(items.len() - n)
    }
}

proof fn lemma_first_of_is_first<M: Message>(frames: Seq<MavFrame<M>>, id: u32)
    ensures
        0 <= first_of(frames, id) <= frames.len(),
        first_of(frames, id) < frames.len() ==> frames[first_of(frames, id)].msg.id() == id,
        forall|j: int| 0 <= j < first_of(frames, id) ==> (#[trigger] frames[j]).msg.id() != id,
    decreases frames.len(),
{
    if frames.len() > 0 && frames[0].msg.id() != id {
        let rest = frames.skip(1);
        lemma_first_of_is_first(rest, id);
        assert forall|j: int| 0 <= j < first_of(frames, id) implies (#[trigger] frames[j]).msg.id()
            != id by {
            if j > 0 {
                assert(rest[j - 1] == frames[j]);
            }
        }
    }
}

proof fn lemma_of_id_len<M: Message>(frames: Seq<MavFrame<M>>, id: u32)
    ensures
        of_id(frames, id).len() == count_of(frames, id),
    decreases frames.len(),
{
    if frames.len() > 0 {
        lemma_of_id_len(frames.drop_last(), id);
    }
}

proof fn lemma_of_id_push<M: Message>(frames: Seq<MavFrame<M>>, frame: MavFrame<M>, id: u32)
    ensures
        of_id(frames.push(frame), id) == (if frame.msg.id() == id {
            of_id(frames, id).push(frame)
        } else {
            of_id(frames, id)
        }),
{
    assert(frames.push(frame).drop_last() =~= frames);
}

proof fn lemma_of_id_empty<M: Message>(frames: Seq<MavFrame<M>>, id: u32)
    requires
        forall|j: int| 0 <= j < frames.len() ==> (#[trigger] frames[j]).msg.id() != id,
    ensures
        of_id(frames, id) == Seq::<MavFrame<M>>::empty(),
    decreases frames.len(),
{
    if frames.len() > 0 {
        lemma_of_id_empty(frames.drop_last(), id);
    }
}

proof fn lemma_of_id_remove_other<M: Message>(frames: Seq<MavFrame<M>>, k: int, id: u32)
    requires
        0 <= k < frames.len(),
        frames[k].msg.id() != id,
    ensures
        of_id(frames.remove(k), id) == of_id(frames, id),
    decreases frames.len(),
{
    if k == frames.len() - 1 {
        assert(frames.remove(k) =~= frames.drop_last());
    } else {
        lemma_of_id_remove_other(frames.drop_last(), k, id);
        assert(frames.remove(k).drop_last() =~= frames.drop_last().remove(k));
    }
}

proof fn lemma_of_id_remove_first<M: Message>(frames: Seq<MavFrame<M>>, k: int, id: u32)
    requires
        0 <= k < frames.len(),
        frames[k].msg.id() == id,
        forall|j: int| 0 <= j < k ==> (#[trigger] frames[j]).msg.id() != id,
    ensures
        of_id(frames, id).len() > 0,
        of_id(frames, id)[0] == frames[k],
        of_id(frames.remove(k), id) == of_id(frames, id).skip(1),
    decreases frames.len(),
{
    if k == frames.len() - 1 {
        assert(frames.remove(k) =~= frames.drop_last());
        lemma_of_id_empty(frames.drop_last(), id);
        assert(of_id(frames, id).skip(1) =~= Seq::empty());
    } else {
        lemma_of_id_remove_first(frames.drop_last(), k, id);
        assert(frames.remove(k).drop_last() =~= frames.drop_last().remove(k));
        assert(of_id(frames.remove(k), id) =~= of_id(frames, id).skip(1));
    }
}

/// No mailbox holds more than [`MAILBOX_MAX_SIZE`] frames of one message id.
pub proof fn law_capacity<M: Message>(mailbox: MailboxInner<M>, id: u32)
    requires
        mailbox.wf(),
    ensures
        count_of(mailbox@, id) <= MAILBOX_MAX_SIZE,
{
    mailbox.lemma_capacity(id);
}

/// The order of arrival runs through every frame in the mailbox exactly once: the
/// addresses are all different, each entry knows its neighbours, and a first and
/// a last one are recorded where there is one at all.
pub proof fn law_list_runs_through_all_frames<M: Message>(mailbox: MailboxInner<M>)
    requires
        mailbox.wf(),
    ensures
        mailbox.addresses().len() == mailbox@.len(),
        mailbox.addresses().no_duplicates(),
        mailbox.first_address() == at(mailbox.addresses(), 0),
        mailbox.last_address() == at(mailbox.addresses(), mailbox.addresses().len() - 1),
        mailbox.first_address() is Some <==> mailbox@.len() > 0,
        mailbox.last_address() is Some <==> mailbox@.len() > 0,
        forall|k: int|
            0 <= k < mailbox@.len() ==> {
                let idx = #[trigger] mailbox.addresses()[k];
                &&& idx.0 == mailbox@[k].msg.id()
                &&& mailbox.previous_address(idx) == at(mailbox.addresses(), k - 1)
                &&& mailbox.next_address(idx) == at(mailbox.addresses(), k + 1)
            },
{
    mailbox.lemma_links();
}

/// The queue of a message id holds the frames with that id, in the order of
/// their arrival over all, and nothing else; the arrivals in it are increasing,
/// and those in the addresses with the id.
pub proof fn law_queues_are_subsequences<M: Message>(mailbox: MailboxInner<M>, id: u32)
    requires
        mailbox.wf(),
    ensures
        mailbox.queued(id) == of_id(mailbox@, id),
        mailbox.queued(id).len() == count_of(mailbox@, id),
        mailbox.arrivals(id).len() == mailbox.queued(id).len(),
        increasing(mailbox.arrivals(id)),
        forall|t: u128| #[trigger]
            mailbox.arrivals(id).contains(t) <==> mailbox.addresses().contains((id, t)),
        mailbox.latest(id) == (if mailbox.arrivals(id).len() == 0 {
            None
        } else {
            Some(mailbox.arrivals(id).last())
        }),
{
    mailbox.lemma_queues(id);
    lemma_of_id_len(mailbox@, id);
}

/// Taking a frame by its message id takes the one of that id that arrived
/// first, and leaves the frames of every other id as they are.
pub proof fn law_first_in_first_out<M: Message>(frames: Seq<MavFrame<M>>, id: u32, other: u32)
    requires
        other != id,
    ensures
        first_of(frames, id) == frames.len() <==> of_id(frames, id).len() == 0,
        first_of(frames, id) < frames.len() ==> frames[first_of(frames, id)] == of_id(frames, id)[0],
        first_of(frames, id) < frames.len() ==> of_id(without_first(frames, id), id) == of_id(
            frames,
            id,
        ).skip(1),
        of_id(without_first(frames, id), other) == of_id(frames, other),
{
    let k = first_of(frames, id);
    lemma_first_of_is_first(frames, id);
    if k < frames.len() {
        lemma_of_id_remove_first(frames, k, id);
        lemma_of_id_remove_other(frames, k, other);
    } else {
        lemma_of_id_empty(frames, id);
    }
}

/// An arrival makes room at the cost of its own message id only: the frames of
/// every other id stay as they are, and of its own id the oldest one leaves
/// where there is no space.
pub proof fn law_arrival<M: Message>(frames: Seq<MavFrame<M>>, frame: MavFrame<M>, other: u32)
    requires
        other != frame.msg.id(),
        count_of(frames, frame.msg.id()) <= MAILBOX_MAX_SIZE,
    ensures
        of_id(with_arrival(frames, frame), other) == of_id(frames, other),
        of_id(with_arrival(frames, frame), frame.msg.id()) == most_recent(
            of_id(frames, frame.msg.id()).push(frame),
            MAILBOX_MAX_SIZE as int,
        ),
        count_of(with_arrival(frames, frame), frame.msg.id()) <= MAILBOX_MAX_SIZE,
{
    let id = frame.msg.id();
    law_first_in_first_out(frames, id, other);
    lemma_of_id_len(frames, id);
    lemma_first_of_is_first(frames, id);
    lemma_of_id_push(frames, frame, id);
    lemma_of_id_push(frames, frame, other);
    lemma_of_id_push(without_first(frames, id), frame, id);
    lemma_of_id_push(without_first(frames, id), frame, other);
    lemma_of_id_len(with_arrival(frames, frame), id);
    assert(of_id(with_arrival(frames, frame), id) =~= most_recent(
        of_id(frames, id).push(frame),
        MAILBOX_MAX_SIZE as int,
    ));
}

/// The mailbox stores the [`MAILBOX_MAX_SIZE`] most recent messages of each
/// id, in the order of their arrival, whatever arrives.
pub proof fn law_keeps_most_recent<M: Message>(arrivals: Seq<MavFrame<M>>, id: u32)
    ensures
        of_id(after_arrivals(arrivals), id) == most_recent(
            of_id(arrivals, id),
            MAILBOX_MAX_SIZE as int,
        ),
    decreases arrivals.len(),
{
    if arrivals.len() > 0 {
        let before = after_arrivals(arrivals.drop_last());
        let frame = arrivals.last();
        law_keeps_most_recent(arrivals.drop_last(), id);
        law_keeps_most_recent(arrivals.drop_last(), frame.msg.id());
        lemma_of_id_len(before, frame.msg.id());
        if frame.msg.id() == id {
            let other: u32 = if id == 0 { 1 } else { 0 };
            law_arrival(before, frame, other);
            assert(most_recent(of_id(before, id).push(frame), MAILBOX_MAX_SIZE as int)
                =~= most_recent(of_id(arrivals, id), MAILBOX_MAX_SIZE as int));
        } else {
            law_arrival(before, frame, id);
        }
    }
}

/// Whether some of the items, at places that go up, are the given ones.
pub open spec fn picks<T>(places: Seq<int>, part: Seq<T>, whole: Seq<T>) -> bool {
    &&& places.len() == part.len()
    &&& forall|i: int| 0 <= i < places.len() ==> 0 <= #[trigger] places[i] < whole.len()
    &&& forall|i: int, j: int| 0 <= i < j < places.len() ==> places[i] < places[j]
    &&& forall|i: int| 0 <= i < part.len() ==> #[trigger] part[i] == whole[places[i]]
}

/// Whether the items of `part` are among those of `whole`, in the same order.
pub open spec fn is_subsequence<T>(part: Seq<T>, whole: Seq<T>) -> bool {
    exists|places: Seq<int>| #[trigger] picks(places, part, whole)
}

/// The frames in the mailbox, of whatever id, are in the order in which they
/// have arrived.
pub proof fn law_order_of_arrival_is_kept<M: Message>(arrivals: Seq<MavFrame<M>>)
    ensures
        is_subsequence(after_arrivals(arrivals), arrivals),
    decreases arrivals.len(),
{
    if arrivals.len() == 0 {
        assert(picks(Seq::<int>::empty(), after_arrivals(arrivals), arrivals));
    } else {
        let earlier = arrivals.drop_last();
        let before = after_arrivals(earlier);
        let id = arrivals.last().msg.id();
        law_order_of_arrival_is_kept(earlier);
        let places = choose|places: Seq<int>| #[trigger] picks(places, before, earlier);
        let k = first_of(before, id);
        lemma_first_of_is_first(before, id);
        let kept = if count_of(before, id) >= MAILBOX_MAX_SIZE && k < before.len() {
            places.remove(k)
        } else {
            places
        };
        assert(picks(kept.push(arrivals.len() - 1), after_arrivals(arrivals), arrivals));
    }
}

/// Whether the arrivals in a mailbox all come before the given one.
pub open spec fn arrives_before<M: Message>(mailbox: MailboxInner<M>, bound: int) -> bool {
    forall|id: u32| (#[trigger] mailbox.latest(id)) matches Some(latest) ==> latest < bound
}

/// A frame that is put into a mailbox is refused only after more frames than
/// there are numbers beyond the range of the clock: with each of them the latest
/// arrival moves on by one at most, once it is out of that range.
pub proof fn law_frames_are_taken<M: Message>(
    before: MailboxInner<M>,
    frame: MavFrame<M>,
    inserted: Inserted<M>,
    after: MailboxInner<M>,
    bound: int,
)
    requires
        inserts_now(before, frame, inserted, after),
        arrives_before(before, bound),
        CLOCK_RANGE <= bound <= u128::MAX,
    ensures
        !(inserted is Refused),
        after@ == with_arrival(before@, frame),
        arrives_before(after, bound + 1),
{
    assert forall|id: u32| (#[trigger] after.latest(id)) matches Some(latest) ==> latest < bound
        + 1 by {
        assert(before.latest(id) matches Some(latest) ==> latest < bound);
    }
    assert(before.latest(frame.msg.id()) matches Some(latest) ==> latest < bound);
}

/// Whether the mailboxes come one from the other by putting in one frame after
/// the other.
pub open spec fn inserts_all<M: Message>(
    mailboxes: Seq<MailboxInner<M>>,
    frames: Seq<MavFrame<M>>,
    inserted: Seq<Inserted<M>>,
) -> bool {
    &&& mailboxes.len() == frames.len() + 1
    &&& inserted.len() == frames.len()
    &&& forall|k: int|
        0 <= k < frames.len() ==> inserts_now(
            mailboxes[k],
            #[trigger] frames[k],
            inserted[k],
            mailboxes[k + 1],
        )
}

/// However many frames are put into an empty mailbox, none is refused, and the
/// mailbox stores the [`MAILBOX_MAX_SIZE`] most recent ones of each id, all of
/// them in the order of their arrival, whatever the clock shows. There must be
/// numbers to count them.
pub proof fn law_insertions_keep_most_recent<M: Message>(
    mailboxes: Seq<MailboxInner<M>>,
    frames: Seq<MavFrame<M>>,
    inserted: Seq<Inserted<M>>,
)
    requires
        inserts_all(mailboxes, frames, inserted),
        mailboxes[0]@.len() == 0,
        arrives_before(mailboxes[0], CLOCK_RANGE as int),
        frames.len() <= u128::MAX - CLOCK_RANGE,
    ensures
        forall|k: int| 0 <= k < frames.len() ==> !(#[trigger] inserted[k] is Refused),
        mailboxes.last()@ == after_arrivals(frames),
        is_subsequence(mailboxes.last()@, frames),
        forall|id: u32|
            #![trigger of_id(mailboxes.last()@, id)]
            of_id(mailboxes.last()@, id) == most_recent(
                of_id(frames, id),
                MAILBOX_MAX_SIZE as int,
            ),
        arrives_before(mailboxes.last(), CLOCK_RANGE + frames.len()),
    decreases frames.len(),
{
    if frames.len() == 0 {
        assert(mailboxes.last()@ =~= after_arrivals(frames));
    } else {
        let n = frames.len() - 1;
        let earlier = frames.drop_last();
        assert forall|k: int| 0 <= k < earlier.len() implies inserts_now(
            mailboxes.drop_last()[k],
            #[trigger] earlier[k],
            inserted.drop_last()[k],
            mailboxes.drop_last()[k + 1],
        ) by {
            assert(earlier[k] == frames[k]);
        }
        law_insertions_keep_most_recent(mailboxes.drop_last(), earlier, inserted.drop_last());
        assert(frames[n] == frames.last());
        law_frames_are_taken(
            mailboxes[n],
            frames[n],
            inserted[n],
            mailboxes[n + 1],
            CLOCK_RANGE + n,
        );
        assert forall|k: int| 0 <= k < frames.len() implies !(#[trigger] inserted[k] is Refused) by {
            if k < n {
                assert(inserted.drop_last()[k] == inserted[k]);
            }
        }
    }
    law_order_of_arrival_is_kept(frames);
    assert forall|id: u32|
        #![trigger of_id(mailboxes.last()@, id)]
        of_id(mailboxes.last()@, id) == most_recent(of_id(frames, id), MAILBOX_MAX_SIZE as int) by {
        law_keeps_most_recent(frames, id);
    }
}

/// The frames of a mailbox with the permits that were given out for them: a
/// permit is available until somebody who waits for a frame acquires it.
pub struct Shared<M> {
    pub frames: Seq<MavFrame<M>>,
    pub available: nat,
    pub held: nat,
}

/// What can happen to a mailbox that is shared. The first two are the ends of
/// `insert_now`, the last three those of `next` and `next_with_id`.
pub enum Step<M> {
    Added(MavFrame<M>),
    Replaced(MavFrame<M>),
    Acquired,
    TookNext,
    TookId(u32),
    WaitedAgain(u32),
}

impl<M: Message> Shared<M> {
    /// The number of permits is the number of frames in the mailbox.
    pub open spec fn balanced(self) -> bool {
        self.available + self.held == self.frames.len()
    }

    /// Whether the step can happen: a permit must be there to be acquired, and
    /// only who holds one looks for a frame.
    pub open spec fn enabled(self, step: Step<M>) -> bool {
        match step {
            Step::Added(frame) => count_of(self.frames, frame.msg.id()) < MAILBOX_MAX_SIZE,
            Step::Replaced(frame) => count_of(self.frames, frame.msg.id()) >= MAILBOX_MAX_SIZE,
            Step::Acquired => self.available > 0,
            Step::TookNext => self.held > 0,
            Step::TookId(id) => self.held > 0 && first_of(self.frames, id) < self.frames.len(),
            Step::WaitedAgain(id) => self.held > 0 && first_of(self.frames, id)
                == self.frames.len(),
        }
    }

    /// A frame that is added brings a permit, one that replaces another brings
    /// none; who takes a frame uses a permit up, who finds none gives it back.
    pub open spec fn after(self, step: Step<M>) -> Shared<M> {
        match step {
            Step::Added(frame) => Shared {
                frames: with_arrival(self.frames, frame),
                available: self.available + 1,
                held: self.held,
            },
            Step::Replaced(frame) => Shared {
                frames: with_arrival(self.frames, frame),
                available: self.available,
                held: self.held,
            },
            Step::Acquired => Shared {
                frames: self.frames,
                available: (self.available - 1) as nat,
                held: self.held + 1,
            },
            Step::TookNext => Shared {
                frames: self.frames.skip(1),
                available: self.available,
                held: (self.held - 1) as nat,
            },
            Step::TookId(id) => Shared {
                frames: without_first(self.frames, id),
                available: self.available,
                held: (self.held - 1) as nat,
            },
            Step::WaitedAgain(id) => Shared {
                frames: self.frames,
                available: self.available + 1,
                held: (self.held - 1) as nat,
            },
        }
    }
}

/// Whatever happens, there are as many permits as frames, so that who holds a
/// permit finds a frame in the mailbox.
pub proof fn law_permits<M: Message>(shared: Shared<M>, step: Step<M>)
    requires
        shared.balanced(),
        shared.enabled(step),
    ensures
        shared.after(step).balanced(),
        shared.after(step).held > 0 ==> shared.after(step).frames.len() > 0,
        step is TookNext ==> shared.frames.len() > 0,
{
    match step {
        Step::Replaced(frame) => {
            let id = frame.msg.id();
            lemma_first_of_is_first(shared.frames, id);
            lemma_of_id_len(shared.frames, id);
            if first_of(shared.frames, id) == shared.frames.len() {
                lemma_of_id_empty(shared.frames, id);
            }
        },
        Step::TookId(id) => {
            lemma_first_of_is_first(shared.frames, id);
        },
        _ => {},
    }
}

/// A mailbox to which the given steps have happened since it was empty, if each
/// of them could.
pub open spec fn after_steps<M: Message>(steps: Seq<Step<M>>) -> Option<Shared<M>>
    decreases steps.len(),
{
    if steps.len() == 0 {
        Some(Shared { frames: Seq::empty(), available: 0, held: 0 })
    } else {
        match after_steps(steps.drop_last()) {
            Some(shared) => if shared.enabled(steps.last()) {
                Some(shared.after(steps.last()))
            } else {
                None
            },
            None => None,
        }
    }
}

/// From the beginning on there are as many permits as frames, and where nobody
/// holds one, all of them are available.
pub proof fn law_permits_from_the_beginning<M: Message>(steps: Seq<Step<M>>)
    requires
        after_steps(steps) is Some,
    ensures
        after_steps(steps)->0.balanced(),
        after_steps(steps)->0.held == 0 ==> after_steps(steps)->0.available == after_steps(
            steps,
        )->0.frames.len(),
    decreases steps.len(),
{
    if steps.len() > 0 {
        law_permits_from_the_beginning(steps.drop_last());
        law_permits(after_steps(steps.drop_last())->0, steps.last());
    }
}

proof fn lemma_count_is_filter<M: Message>(frames: Seq<MavFrame<M>>, id: u32)
    ensures
        count_of(frames, id) == frames.filter(|f: MavFrame<M>| f.msg.id() == id).len(),
        of_id(frames, id) == frames.filter(|f: MavFrame<M>| f.msg.id() == id),
    decreases frames.len(),
{
    reveal(Seq::filter);
    if frames.len() > 0 {
        lemma_count_is_filter(frames.drop_last(), id);
    }
}

proof fn lemma_first_of_at<M: Message>(frames: Seq<MavFrame<M>>, id: u32, k: int)
    requires
        0 <= k <= frames.len(),
        k < frames.len() ==> frames[k].msg.id() == id,
        forall|i: int| 0 <= i < k ==> (#[trigger] frames[i]).msg.id() != id,
    ensures
        first_of(frames, id) == k,
    decreases k,
{
    if k > 0 {
        assert(frames[0].msg.id() != id);
        assert forall|i: int| 0 <= i < k - 1 implies (#[trigger] frames.skip(1)[i]).msg.id()
            != id by {
            assert(frames[i + 1].msg.id() != id);
        }
        lemma_first_of_at(frames.skip(1), id, k - 1);
    }
}

/// The frames with a message id are those that have it, and their number is
/// theirs.
pub proof fn law_frames_of_an_id<M: Message>(frames: Seq<MavFrame<M>>, id: u32)
    ensures
        count_of(frames, id) == frames.filter(|f: MavFrame<M>| f.msg.id() == id).len(),
        of_id(frames, id) == frames.filter(|f: MavFrame<M>| f.msg.id() == id),
{
    lemma_count_is_filter(frames, id);
}

/// The frame that is taken by its message id is the one with none of the id
/// before it, and all the others stay where they are; if there is none, all do.
pub proof fn law_taking_by_id<M: Message>(frames: Seq<MavFrame<M>>, id: u32, k: int)
    requires
        0 <= k <= frames.len(),
        k < frames.len() ==> frames[k].msg.id() == id,
        forall|i: int| 0 <= i < k ==> (#[trigger] frames[i]).msg.id() != id,
    ensures
        first_of(frames, id) == k,
        without_first(frames, id) == (if k < frames.len() {
            frames.take(k) + frames.skip(k + 1)
        } else {
            frames
        }),
{
    lemma_first_of_at(frames, id, k);
    if k < frames.len() {
        assert(without_first(frames, id) =~= frames.take(k) + frames.skip(k + 1));
    }
}

/// The last items of many are as many as wanted, from the end, or all of them.
pub proof fn law_most_recent<T>(items: Seq<T>, n: int)
    requires
        n >= 0,
    ensures
        items.len() <= n ==> most_recent(items, n) == items,
        items.len() > n ==> most_recent(items, n).len() == n,
        forall|i: int|
            0 <= i < n < items.len() ==> #[trigger] most_recent(items, n)[i] == items[items.len() - n
                + i],
{
}

/// What putting a frame in does, whatever the clock shows. The frame comes last.
/// With fewer than 16 frames of its id there, all the others stay; else the first
/// one of the id, which is handed out, has made room. The frame's arrival is the
/// reading, or right after the latest one of its id where that is not earlier;
/// only where there is no number for that, the frame is handed back.
pub proof fn law_insertion<M: Message>(
    before: MailboxInner<M>,
    frame: MavFrame<M>,
    now: u128,
    inserted: Inserted<M>,
    after: MailboxInner<M>,
    k: int,
)
    requires
        inserts_reading(before, frame, now, inserted, after),
        0 <= k <= before@.len(),
        k < before@.len() ==> before@[k].msg.id() == frame.msg.id(),
        forall|i: int| 0 <= i < k ==> (#[trigger] before@[i]).msg.id() != frame.msg.id(),
    ensures
        ({
            let id = frame.msg.id();
            let held = before@.filter(|f: MavFrame<M>| f.msg.id() == id).len();
            &&& inserted is Refused <==> before.latest(id) == Some(u128::MAX)
            &&& inserted is Added <==> before.latest(id) != Some(u128::MAX) && held < 16
            &&& match inserted {
                Inserted::Added => after@ == before@.push(frame),
                Inserted::Replaced(evicted) => {
                    &&& k < before@.len()
                    &&& evicted == before@[k]
                    &&& after@ == (before@.take(k) + before@.skip(k + 1)).push(frame)
                },
                Inserted::Refused(back) => back == frame && after@ == before@,
            }
            &&& !(inserted is Refused) ==> {
                &&& after.latest(id) is Some
                &&& match before.latest(id) {
                    None => after.latest(id)->0 == now,
                    Some(latest) => if latest < now {
                        after.latest(id)->0 == now
                    } else {
                        after.latest(id)->0 == latest + 1
                    },
                }
            }
            &&& inserted is Refused ==> after.latest(id) == before.latest(id)
            &&& forall|other: u32|
                other != id ==> #[trigger] after.latest(other) == before.latest(other)
        }),
{
    let id = frame.msg.id();
    lemma_count_is_filter(before@, id);
    law_taking_by_id(before@, id, k);
    if k == before@.len() {
        lemma_of_id_empty(before@, id);
        lemma_of_id_len(before@, id);
    }
}

/// What putting a frame in now does is what it does at some reading within the
/// range of the clock.
pub proof fn law_insertion_now<M: Message>(
    before: MailboxInner<M>,
    frame: MavFrame<M>,
    inserted: Inserted<M>,
    after: MailboxInner<M>,
) -> (now: u128)
    requires
        inserts_now(before, frame, inserted, after),
    ensures
        now < 0x1_0000_0000_0000_0000 * 1_000_000_000,
        inserts_reading(before, frame, now, inserted, after),
{
    choose|now: u128|
        now < CLOCK_RANGE && #[trigger] inserts_reading(before, frame, now, inserted, after)
}

/// A frame of an id makes room only for one of the same id: the frames of every
/// other id are after the arrival what they were before.
pub proof fn law_other_ids_keep_their_frames<M: Message>(
    frames: Seq<MavFrame<M>>,
    frame: MavFrame<M>,
    other: u32,
)
    requires
        other != frame.msg.id(),
    ensures
        with_arrival(frames, frame).filter(|f: MavFrame<M>| f.msg.id() == other)
            == frames.filter(|f: MavFrame<M>| f.msg.id() == other),
        with_arrival(frames, frame).last() == frame,
{
    let id = frame.msg.id();
    lemma_count_is_filter(with_arrival(frames, frame), other);
    lemma_count_is_filter(frames, other);
    lemma_of_id_push(frames, frame, other);
    lemma_of_id_push(without_first(frames, id), frame, other);
    law_first_in_first_out(frames, id, other);
}

} // verus!
