use vstd::prelude::*;

use crate::broadcast::{publish_spec, Broadcaster};
use crate::history::{cache_append, room_history, RoomsMessagesCache};
use crate::message::Message;

verus! {

/// A room's name with its current history, oldest message first.
#[derive(Debug, PartialEq, Eq)]
pub struct RoomWithMessages {
    pub name: String,
    pub messages: Vec<Message>,
}

/// Records `message` in its room's history, then hands it to every live subscriber. Always
/// succeeds: with no subscriber the message is kept in the history only.
pub fn post_message(message: Message, queue: &mut Broadcaster, cache: &mut RoomsMessagesCache)
    requires
        old(cache).wf(),
        old(queue).wf(),
        old(queue)@.log.len() < u64::MAX,
    ensures
        final(cache).wf(),
        final(queue).wf(),
        final(cache)@ == cache_append(old(cache)@, message),
        final(queue)@ == publish_spec(old(queue)@, message),
{
    cache.set(message.clone());
    queue.publish(message);
}

/// The history of `room`, named after it; empty when nothing was ever posted there.
pub fn get_messages(room: String, cache: &RoomsMessagesCache) -> (r: RoomWithMessages)
    requires
        cache.wf(),
    ensures
        r.name@ == room@,
        r.messages@ == room_history(cache@, room@),
{
    match cache.get(room.as_str()) {
        Some(messages) => RoomWithMessages { name: room, messages },
        None => RoomWithMessages { name: room, messages: Vec::new() },
    }
}

} // verus!
