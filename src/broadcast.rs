use vstd::arithmetic::div_mod::{lemma_fundamental_div_mod, lemma_small_mod};
use vstd::prelude::*;

use crate::message::Message;

verus! {

/// The number of pending messages the process-wide channel holds.
pub const CHANNEL_CAPACITY: usize = 1024;

/// What one read from a cursor gives.
#[derive(Debug, PartialEq, Eq)]
pub enum Received {
    /// The next message in publish order.
    Message(Message),
    /// The cursor fell behind and some messages were overwritten; it now stands at the oldest
    /// message still held.
    Lagged,
    /// The channel is shut down and the cursor has read everything it held.
    Closed,
    /// Nothing new yet: a live reader waits for the next publish.
    Empty,
}

/// The abstract state of a channel: every message it ever stored, in publish order, with the
/// bound on how many of the latest it still holds.
pub struct ChannelState {
    pub log: Seq<Message>,
    pub capacity: nat,
    pub subscribers: nat,
    pub closed: bool,
}

/// The position of the oldest message the channel still holds.
pub open spec fn oldest(v: ChannelState) -> nat {
    if v.log.len() > v.capacity {
        (v.log.len() - v.capacity) as nat
    } else {
        0
    }
}

/// The channel after a publish of `m`: stored for the current subscribers, or dropped when
/// there are none or the channel is shut down.
pub open spec fn publish_spec(v: ChannelState, m: Message) -> ChannelState {
    if v.subscribers > 0 && !v.closed {
        ChannelState { log: v.log.push(m), ..v }
    } else {
        v
    }
}

/// The channel after each of `ms` is published in turn.
pub open spec fn publish_all(v: ChannelState, ms: Seq<Message>) -> ChannelState
    decreases ms.len(),
{
    if ms.len() == 0 {
        v
    } else {
        publish_spec(publish_all(v, ms.drop_last()), ms.last())
    }
}

/// One read at position `pos`: the outcome and the cursor's next position.
pub open spec fn receive_spec(v: ChannelState, pos: nat) -> (Received, nat) {
    if pos < oldest(v) {
        (Received::Lagged, oldest(v))
    } else if pos < v.log.len() {
        (Received::Message(v.log[pos as int]), pos + 1)
    } else if v.closed {
        (Received::Closed, pos)
    } else {
        (Received::Empty, pos)
    }
}

/// The channel after one cursor is released.
pub open spec fn release_spec(v: ChannelState) -> ChannelState {
    ChannelState {
        subscribers: if v.subscribers > 0 {
            (v.subscribers - 1) as nat
        } else {
            0
        },
        ..v
    }
}

/// The messages that `n` consecutive reads from position `pos` give, in order.
pub open spec fn received(v: ChannelState, pos: nat, n: nat) -> Seq<Message>
    decreases n,
{
    if n == 0 {
        Seq::empty()
    } else {
        let (r, next) = receive_spec(v, pos);
        match r {
            Received::Message(m) => seq![m] + received(v, next, (n - 1) as nat),
            _ => received(v, next, (n - 1) as nat),
        }
    }
}

/// The log positions that `n` consecutive reads from position `pos` take their messages from.
pub open spec fn received_positions(v: ChannelState, pos: nat, n: nat) -> Seq<nat>
    decreases n,
{
    if n == 0 {
        Seq::empty()
    } else {
        let (r, next) = receive_spec(v, pos);
        match r {
            Received::Message(_) => seq![pos] + received_positions(v, next, (n - 1) as nat),
            _ => received_positions(v, next, (n - 1) as nat),
        }
    }
}

/// Publishing only ever adds to the end of the log and leaves the other fields as they are.
pub proof fn lemma_publish_all_extends(v: ChannelState, ms: Seq<Message>)
    ensures
        publish_all(v, ms).log.len() >= v.log.len(),
        publish_all(v, ms).log.subrange(0, v.log.len() as int) == v.log,
        publish_all(v, ms).capacity == v.capacity,
        publish_all(v, ms).subscribers == v.subscribers,
        publish_all(v, ms).closed == v.closed,
    decreases ms.len(),
{
    if ms.len() == 0 {
        assert(v.log.subrange(0, v.log.len() as int) =~= v.log);
    } else {
        lemma_publish_all_extends(v, ms.drop_last());
        let w = publish_all(v, ms.drop_last());
        assert(publish_spec(w, ms.last()).log.subrange(0, v.log.len() as int) =~= w.log.subrange(
            0,
            v.log.len() as int,
        ));
    }
}

/// With a subscriber present on an open channel, every publish is stored, in order.
pub proof fn lemma_publish_all_stores(v: ChannelState, ms: Seq<Message>)
    requires
        v.subscribers > 0,
        !v.closed,
    ensures
        publish_all(v, ms).log == v.log + ms,
    decreases ms.len(),
{
    if ms.len() == 0 {
        assert(v.log + ms =~= v.log);
    } else {
        lemma_publish_all_extends(v, ms.drop_last());
        lemma_publish_all_stores(v, ms.drop_last());
        assert(v.log + ms.drop_last() + seq![ms.last()] =~= v.log + ms);
    }
}

/// Reads from a position within the held window give the log from there on.
pub proof fn lemma_received_window(v: ChannelState, pos: nat, n: nat)
    requires
        oldest(v) <= pos,
        pos + n <= v.log.len(),
    ensures
        received(v, pos, n) == v.log.subrange(pos as int, pos + n as int),
    decreases n,
{
    if n == 0 {
        assert(v.log.subrange(pos as int, pos as int) =~= Seq::<Message>::empty());
    } else {
        lemma_received_window(v, pos + 1, (n - 1) as nat);
        assert(seq![v.log[pos as int]] + v.log.subrange(pos + 1int, pos + n as int) =~= v.log.subrange(
            pos as int,
            pos + n as int,
        ));
    }
}

/// Every message a cursor reads is the log entry at a position no earlier than where the
/// cursor started.
pub proof fn lemma_reads_come_from_later_positions(v: ChannelState, pos: nat, n: nat)
    requires
        pos <= v.log.len(),
    ensures
        received(v, pos, n).len() == received_positions(v, pos, n).len(),
        forall|k: int|
            0 <= k < received(v, pos, n).len() ==> {
                &&& pos <= #[trigger] received_positions(v, pos, n)[k] < v.log.len()
                &&& received(v, pos, n)[k] == v.log[received_positions(v, pos, n)[k] as int]
            },
    decreases n,
{
    if n > 0 {
        let (r, next) = receive_spec(v, pos);
        lemma_reads_come_from_later_positions(v, next, (n - 1) as nat);
        let rs = received(v, next, (n - 1) as nat);
        let ps = received_positions(v, next, (n - 1) as nat);
        match r {
            Received::Message(m) => {
                assert forall|k: int| 0 <= k < received(v, pos, n).len() implies {
                    &&& pos <= #[trigger] received_positions(v, pos, n)[k] < v.log.len()
                    &&& received(v, pos, n)[k] == v.log[received_positions(v, pos, n)[k] as int]
                } by {
                    if k > 0 {
                        assert(received(v, pos, n)[k] == rs[k - 1]);
                        assert(received_positions(v, pos, n)[k] == ps[k - 1]);
                    }
                }
            },
            _ => {},
        }
    }
}

/// A cursor subscribed before `ms` are published reads all of them, in publish order, as
/// long as it does not fall behind by more than the channel holds.
pub proof fn lemma_subscriber_receives_all_in_order(v: ChannelState, ms: Seq<Message>)
    requires
        v.subscribers > 0,
        !v.closed,
        ms.len() <= v.capacity,
    ensures
        received(publish_all(v, ms), v.log.len(), ms.len()) == ms,
{
    lemma_publish_all_extends(v, ms);
    lemma_publish_all_stores(v, ms);
    let w = publish_all(v, ms);
    lemma_received_window(w, v.log.len(), ms.len());
    assert(w.log.subrange(v.log.len() as int, v.log.len() + ms.len() as int) =~= ms);
}

/// A cursor subscribed after `m` was published reads only messages stored after it: the
/// log up to the subscription point, where `m` stands if it was stored, never changes, and
/// every read comes from a later position.
pub proof fn lemma_late_subscriber_misses_earlier(
    v: ChannelState,
    m: Message,
    ms: Seq<Message>,
    n: nat,
)
    ensures
        ({
            let before = publish_spec(v, m);
            let after = publish_all(before, ms);
            let p = before.log.len();
            &&& after.log.subrange(0, p as int) == before.log
            &&& forall|k: int|
                0 <= k < received(after, p, n).len() ==> {
                    &&& p <= #[trigger] received_positions(after, p, n)[k] < after.log.len()
                    &&& received(after, p, n)[k] == after.log[received_positions(after, p, n)[k] as int]
                }
        }),
{
    let before = publish_spec(v, m);
    lemma_publish_all_extends(before, ms);
    lemma_reads_come_from_later_positions(publish_all(before, ms), before.log.len(), n);
}

/// An independent read position in a channel.
pub struct Cursor {
    next: u64,
}

impl Cursor {
    /// The position, in the channel's log, of the next message this cursor reads.
    pub closed spec fn pos(&self) -> nat {
        self.next as nat
    }
}

/// A bounded fan-out channel: each published message is stored once in a ring of slots and
/// read by every cursor at its own pace. A slot is overwritten once `capacity` newer messages
/// have been published; a cursor that had not read it yet reads `Lagged` and skips ahead.
pub struct Broadcaster {
    slots: Vec<Message>,
    capacity: usize,
    sent: u64,
    subscribers: u64,
    closed: bool,
    log: Ghost<Seq<Message>>,
}

impl View for Broadcaster {
    type V = ChannelState;

    closed spec fn view(&self) -> ChannelState {
        ChannelState {
            log: self.log@,
            capacity: self.capacity as nat,
            subscribers: self.subscribers as nat,
            closed: self.closed,
        }
    }
}

proof fn lemma_mod_distinct(a: int, b: int, n: int)
    requires
        0 <= a < b < a + n,
    ensures
        a % n != b % n,
{
    lemma_fundamental_div_mod(a, n);
    lemma_fundamental_div_mod(b, n);
    if a % n == b % n {
        let k = b / n - a / n;
        assert(b - a == n * k) by (nonlinear_arith)
            requires
                a == n * (a / n) + a % n,
                b == n * (b / n) + b % n,
                a % n == b % n,
                k == b / n - a / n,
        ;
        assert(false) by (nonlinear_arith)
            requires
                0 < n * k < n,
                n > 0,
        ;
    }
}

impl Broadcaster {
    /// The slots hold, at position `i % capacity`, every message of the log still held.
    pub closed spec fn wf(&self) -> bool {
        &&& self.capacity > 0
        &&& self.sent as nat == self.log@.len()
        &&& self.slots@.len() == if self.log@.len() < self.capacity {
            self.log@.len()
        } else {
            self.capacity as nat
        }
        &&& forall|i: int|
            oldest(self@) <= i < self.log@.len() ==> self.slots@[i % (self.capacity as int)]
                == #[trigger] self.log@[i]
    }

    /// A channel that holds at most `capacity` pending messages, with no subscriber.
    pub fn new(capacity: usize) -> (r: Broadcaster)
        requires
            capacity > 0,
        ensures
            r.wf(),
            r@ == (ChannelState {
                log: Seq::empty(),
                capacity: capacity as nat,
                subscribers: 0,
                closed: false,
            }),
    {
        Broadcaster {
            slots: Vec::new(),
            capacity,
            sent: 0,
            subscribers: 0,
            closed: false,
            log: Ghost(Seq::empty()),
        }
    }

    /// The number of cursors currently subscribed.
    pub fn receiver_count(&self) -> (r: u64)
        ensures
            r as nat == self@.subscribers,
    {
        self.subscribers
    }

    /// How many messages the channel has stored since it was made.
    pub fn sent(&self) -> (r: u64)
        requires
            self.wf(),
        ensures
            r as nat == self@.log.len(),
    {
        self.sent
    }

    /// Whether the channel has been shut down.
    pub fn is_closed(&self) -> (r: bool)
        ensures
            r == self@.closed,
    {
        self.closed
    }

    /// A new cursor that reads only what is published from now on.
    pub fn subscribe(&mut self) -> (c: Cursor)
        requires
            old(self).wf(),
            old(self)@.subscribers < u64::MAX,
        ensures
            final(self).wf(),
            final(self)@ == (ChannelState { subscribers: old(self)@.subscribers + 1, ..old(self)@ }),
            c.pos() == old(self)@.log.len(),
    {
        self.subscribers = self.subscribers + 1;
        Cursor { next: self.sent }
    }

    /// Releases a cursor: the channel counts one subscriber less.
    pub fn unsubscribe(&mut self, c: Cursor)
        requires
            old(self).wf(),
        ensures
            final(self).wf(),
            final(self)@ == release_spec(old(self)@),
    {
        if self.subscribers > 0 {
            self.subscribers = self.subscribers - 1;
        }
    }

    /// Shuts the channel down: cursors read what is left, then `Closed`.
    pub fn close(&mut self)
        requires
            old(self).wf(),
        ensures
            final(self).wf(),
            final(self)@ == (ChannelState { closed: true, ..old(self)@ }),
    {
        self.closed = true;
    }

    /// Makes `m` available to every current subscriber. Never fails and never waits: with no
    /// subscriber, or on a closed channel, the message is dropped.
    pub fn publish(&mut self, m: Message)
        requires
            old(self).wf(),
            old(self)@.log.len() < u64::MAX,
        ensures
            final(self).wf(),
            final(self)@ == publish_spec(old(self)@, m),
    {
        if self.subscribers == 0 || self.closed {
            return;
        }
        let ghost old_log = self.log@;
        let ghost len = old_log.len() as int;
        let ghost cap = self.capacity as int;
        if self.slots.len() < self.capacity {
            self.slots.push(m);
            proof {
                self.log@ = old_log.push(m);
                assert forall|i: int| oldest(self@) <= i < self.log@.len() implies self.slots@[i % cap]
                    == #[trigger] self.log@[i] by {
                    lemma_small_mod(i as nat, cap as nat);
                    if i < len {
                        assert(old_log[i] == self.log@[i]);
                    }
                }
            }
        } else {
            let idx = (self.sent % (self.capacity as u64)) as usize;
            self.slots.set(idx, m);
            proof {
                self.log@ = old_log.push(m);
                assert forall|i: int| oldest(self@) <= i < self.log@.len() implies self.slots@[i % cap]
                    == #[trigger] self.log@[i] by {
                    if i < len {
                        lemma_mod_distinct(i, len, cap);
                        assert(old_log[i] == self.log@[i]);
                    }
                }
            }
        }
        self.sent = self.sent + 1;
    }

    /// Reads the next message for cursor `c`, in publish order. A cursor that fell behind the
    /// oldest message still held reads `Lagged` and moves to that message.
    pub fn receive(&self, c: &mut Cursor) -> (r: Received)
        requires
            self.wf(),
            old(c).pos() <= self@.log.len(),
        ensures
            (r, final(c).pos()) == receive_spec(self@, old(c).pos()),
    {
        let first = if self.sent > self.capacity as u64 {
            self.sent - self.capacity as u64
        } else {
            0
        };
        if c.next < first {
            c.next = first;
            Received::Lagged
        } else if c.next < self.sent {
            let idx = (c.next % (self.capacity as u64)) as usize;
            proof {
                if self.log@.len() < self.capacity {
                    lemma_small_mod(c.next as nat, self.capacity as nat);
                }
            }
            let m = self.slots[idx].clone();
            c.next = c.next + 1;
            proof {
                assert(self.slots@[old(c).pos() as int % (self.capacity as int)] == self.log@[old(c).pos() as int]);
            }
            Received::Message(m)
        } else if self.closed {
            Received::Closed
        } else {
            Received::Empty
        }
    }
}

} // verus!
