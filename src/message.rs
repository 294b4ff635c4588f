use vstd::prelude::*;

verus! {

/// A chat message. Immutable once built; equal by its fields only.
#[derive(Debug, PartialEq, Eq)]
pub struct Message {
    pub sender: String,
    pub room: String,
    pub content: String,
    pub created_at: String,
}

impl Message {
    pub fn new(sender: String, room: String, content: String, created_at: String) -> (r: Message)
        ensures
            r.sender == sender,
            r.room == room,
            r.content == content,
            r.created_at == created_at,
    {
        Message { sender, room, content, created_at }
    }
}

impl Clone for Message {
    fn clone(&self) -> (r: Message)
        ensures
            r == *self,
    {
        Message {
            sender: self.sender.clone(),
            room: self.room.clone(),
            content: self.content.clone(),
            created_at: self.created_at.clone(),
        }
    }
}

} // verus!
