use vstd::prelude::*;

use crate::broadcast::{
    publish_all, receive_spec, release_spec, Broadcaster, ChannelState, Cursor,
    Received,
};
use crate::message::Message;

verus! {

/// What a live stream does after one step.
#[derive(Debug, PartialEq, Eq)]
pub enum StreamStep {
    /// Hand this message to the consumer.
    Yield(Message),
    /// Nothing to hand out yet: wait for the next publish or for cancellation.
    Wait,
    /// The stream is over: cancelled, or the channel shut down.
    End,
}

/// One read that retries at once after a lag: after `Lagged` the cursor stands at the oldest
/// message held, so the retry reads a message or finds nothing new.
pub open spec fn read_past_lag(v: ChannelState, pos: nat) -> (Received, nat) {
    let (r, next) = receive_spec(v, pos);
    match r {
        Received::Lagged => receive_spec(v, next),
        _ => (r, next),
    }
}

/// One step of a stream whose cursor stands at `pos`: the action, the new position and
/// whether the stream has ended.
pub open spec fn session_step(v: ChannelState, pos: nat, done: bool, cancelled: bool) -> (
    StreamStep,
    nat,
    bool,
) {
    if done || cancelled {
        (StreamStep::End, pos, true)
    } else {
        let (r, next) = read_past_lag(v, pos);
        match r {
            Received::Message(m) => (StreamStep::Yield(m), next, false),
            Received::Closed => (StreamStep::End, next, true),
            _ => (StreamStep::Wait, next, false),
        }
    }
}

proof fn lemma_publish_all_ignores_subscriber_count(v: ChannelState, w: ChannelState, ms: Seq<Message>)
    requires
        v.subscribers > 0,
        w.subscribers > 0,
        v.log == w.log,
        v.capacity == w.capacity,
        v.closed == w.closed,
    ensures
        publish_all(v, ms).log == publish_all(w, ms).log,
        publish_all(v, ms).capacity == publish_all(w, ms).capacity,
        publish_all(v, ms).closed == publish_all(w, ms).closed,
        publish_all(v, ms).subscribers > 0,
        publish_all(w, ms).subscribers > 0,
    decreases ms.len(),
{
    if ms.len() > 0 {
        lemma_publish_all_ignores_subscriber_count(v, w, ms.drop_last());
    }
}

/// Cancelling a stream ends it for good: whatever is published afterwards, it only ever
/// reports `End`. Releasing its cursor changes nothing that any other stream reads.
pub proof fn lemma_cancel_is_final_and_isolated(
    v: ChannelState,
    pos: nat,
    done: bool,
    ms: Seq<Message>,
    later_cancel: bool,
    other_pos: nat,
    other_done: bool,
    other_cancel: bool,
)
    requires
        v.subscribers >= 2,
    ensures
        ({
            let (step, p, d) = session_step(v, pos, done, true);
            let after = publish_all(release_spec(v), ms);
            &&& step == StreamStep::End
            &&& d
            &&& session_step(after, p, d, later_cancel) == (StreamStep::End, p, true)
            &&& session_step(after, other_pos, other_done, other_cancel) == session_step(
                publish_all(v, ms),
                other_pos,
                other_done,
                other_cancel,
            )
        }),
{
    lemma_publish_all_ignores_subscriber_count(release_spec(v), v, ms);
}

/// One subscriber's live stream: a cursor of its own and whether the stream has ended.
pub struct SessionStream {
    cursor: Cursor,
    done: bool,
}

impl SessionStream {
    /// The position of the stream's cursor in the channel's log.
    pub closed spec fn pos(&self) -> nat {
        self.cursor.pos()
    }

    /// Whether the stream has ended.
    pub closed spec fn ended(&self) -> bool {
        self.done
    }

    /// Opens a stream that sees only what is published from now on.
    pub fn open(b: &mut Broadcaster) -> (s: SessionStream)
        requires
            old(b).wf(),
            old(b)@.subscribers < u64::MAX,
        ensures
            final(b).wf(),
            final(b)@ == (ChannelState { subscribers: old(b)@.subscribers + 1, ..old(b)@ }),
            s.pos() == old(b)@.log.len(),
            !s.ended(),
    {
        let cursor = b.subscribe();
        SessionStream { cursor, done: false }
    }

    /// Whether the stream has ended; an ended stream only ever reports `End`.
    pub fn is_ended(&self) -> (r: bool)
        ensures
            r == self.ended(),
    {
        self.done
    }

    /// One step of the stream: a message to hand out, a wait, or the end. A lag is retried
    /// at once and never reported; cancellation or shutdown ends the stream for good.
    pub fn poll(&mut self, b: &Broadcaster, cancelled: bool) -> (step: StreamStep)
        requires
            b.wf(),
            old(self).pos() <= b@.log.len(),
        ensures
            (step, final(self).pos(), final(self).ended()) == session_step(
                b@,
                old(self).pos(),
                old(self).ended(),
                cancelled,
            ),
            final(self).pos() <= b@.log.len(),
    {
        if self.done || cancelled {
            self.done = true;
            return StreamStep::End;
        }
        let mut r = b.receive(&mut self.cursor);
        if let Received::Lagged = r {
            r = b.receive(&mut self.cursor);
        }
        match r {
            Received::Message(m) => StreamStep::Yield(m),
            Received::Closed => {
                self.done = true;
                StreamStep::End
            },
            _ => StreamStep::Wait,
        }
    }

    /// Ends the stream and releases its cursor.
    pub fn release(self, b: &mut Broadcaster)
        requires
            old(b).wf(),
        ensures
            final(b).wf(),
            final(b)@ == release_spec(old(b)@),
    {
        b.unsubscribe(self.cursor);
    }
}

} // verus!
