use vstd::prelude::*;

use crate::message::Message;

verus! {

/// How many messages a room keeps; older ones are evicted first.
pub const HISTORY_CAPACITY: usize = 10;

/// The last `n` entries of `s`, or all of `s` when it is shorter.
pub open spec fn last_n<A>(s: Seq<A>, n: nat) -> Seq<A> {
    if s.len() > n {
        s.subrange(s.len() - n, s.len() as int)
    } else {
        s
    }
}

/// A room's history after `m` is appended to `h`: the most recent messages, oldest first.
pub open spec fn retain_recent(h: Seq<Message>, m: Message) -> Seq<Message> {
    last_n(h.push(m), HISTORY_CAPACITY as nat)
}

/// What a read of `room` sees in the cache model `c`: its history, or nothing yet.
pub open spec fn room_history(c: Map<Seq<char>, Seq<Message>>, room: Seq<char>) -> Seq<Message> {
    if c.contains_key(room) {
        c[room]
    } else {
        Seq::empty()
    }
}

/// The cache model after `m` is appended to the history of its room.
pub open spec fn cache_append(c: Map<Seq<char>, Seq<Message>>, m: Message) -> Map<
    Seq<char>,
    Seq<Message>,
> {
    c.insert(m.room@, retain_recent(room_history(c, m.room@), m))
}

/// The cache model after each message of `ms` is appended in turn, starting from `c`.
pub open spec fn replay(c: Map<Seq<char>, Seq<Message>>, ms: Seq<Message>) -> Map<
    Seq<char>,
    Seq<Message>,
>
    decreases ms.len(),
{
    if ms.len() == 0 {
        c
    } else {
        cache_append(replay(c, ms.drop_last()), ms.last())
    }
}

/// The messages of `ms` that were posted to `room`, in order.
pub open spec fn posted_to(ms: Seq<Message>, room: Seq<char>) -> Seq<Message> {
    ms.filter(|m: Message| m.room@ == room)
}

proof fn lemma_last_n_push<A>(s: Seq<A>, x: A, n: nat)
    ensures
        last_n(last_n(s, n).push(x), n) == last_n(s.push(x), n),
{
    let t = s.push(x);
    if s.len() > n {
        assert(last_n(s, n).push(x).subrange(1, n as int + 1) =~= t.subrange(t.len() - n, t.len() as int));
    } else {
        assert(last_n(s, n) == s);
    }
}

/// After any sequence of appends to an empty cache, a read of a room gives the last
/// `HISTORY_CAPACITY` messages that were appended to that room, in the order they were
/// appended: nothing reordered, nothing from another room.
pub proof fn lemma_history_keeps_last_appended(ms: Seq<Message>, room: Seq<char>)
    ensures
        room_history(replay(Map::empty(), ms), room) == last_n(
            posted_to(ms, room),
            HISTORY_CAPACITY as nat,
        ),
    decreases ms.len(),
{
    reveal(Seq::filter);
    if ms.len() == 0 {
        assert(posted_to(ms, room) =~= Seq::<Message>::empty());
    } else {
        let p = ms.drop_last();
        let x = ms.last();
        lemma_history_keeps_last_appended(p, room);
        assert(posted_to(ms, room) == if x.room@ == room {
            posted_to(p, room).push(x)
        } else {
            posted_to(p, room)
        });
        if x.room@ == room {
            lemma_last_n_push(posted_to(p, room), x, HISTORY_CAPACITY as nat);
        }
    }
}

/// A room that no append ever named reads as empty.
pub proof fn lemma_untouched_room_is_empty(ms: Seq<Message>, room: Seq<char>)
    requires
        forall|i: int| 0 <= i < ms.len() ==> (#[trigger] ms[i]).room@ != room,
    ensures
        room_history(replay(Map::empty(), ms), room) == Seq::<Message>::empty(),
    decreases ms.len(),
{
    if ms.len() > 0 {
        let p = ms.drop_last();
        assert forall|i: int| 0 <= i < p.len() implies (#[trigger] p[i]).room@ != room by {
            assert(p[i] == ms[i]);
        }
        lemma_untouched_room_is_empty(p, room);
        assert(ms.last() == ms[ms.len() - 1]);
    }
}

/// The bounded, ordered history of one room, oldest message first.
pub struct RoomHistory {
    room: String,
    messages: Vec<Message>,
}

impl View for RoomHistory {
    type V = Seq<Message>;

    closed spec fn view(&self) -> Seq<Message> {
        self.messages@
    }
}

impl RoomHistory {
    /// The name of the room this history belongs to.
    pub closed spec fn room_spec(&self) -> Seq<char> {
        self.room@
    }

    pub open spec fn wf(&self) -> bool {
        self@.len() <= HISTORY_CAPACITY
    }

    /// A history that holds `m` alone, for the room of `m`.
    pub fn new(m: Message) -> (r: RoomHistory)
        ensures
            r.wf(),
            r.room_spec() == m.room@,
            r@ == seq![m],
    {
        let room = m.room.clone();
        let mut messages: Vec<Message> = Vec::new();
        messages.push(m);
        RoomHistory { room, messages }
    }

    /// The name of the room this history belongs to.
    pub fn room(&self) -> (r: &String)
        ensures
            r@ == self.room_spec(),
    {
        &self.room
    }

    /// Appends `m` at the end, evicting the oldest message if the capacity is exceeded.
    pub fn push(&mut self, m: Message)
        requires
            old(self).wf(),
        ensures
            final(self).wf(),
            final(self).room_spec() == old(self).room_spec(),
            final(self)@ == retain_recent(old(self)@, m),
    {
        self.messages.push(m);
        if self.messages.len() > HISTORY_CAPACITY {
            self.messages.remove(0);
        }
        proof {
            let s = old(self)@.push(m);
            if s.len() > HISTORY_CAPACITY {
                assert(self.messages@ =~= s.subrange(1, s.len() as int));
            }
        }
    }

    /// An independent copy of the messages, oldest first.
    pub fn snapshot(&self) -> (r: Vec<Message>)
        ensures
            r@ == self@,
    {
        let mut out: Vec<Message> = Vec::new();
        let mut i: usize = 0;
        while i < self.messages.len()
            invariant
                i <= self.messages@.len(),
                out@ =~= self.messages@.subrange(0, i as int),
            decreases self.messages@.len() - i,
        {
            out.push(self.messages[i].clone());
            i = i + 1;
        }
        out
    }
}

/// The message cache: for each room that has been written to, its bounded history.
/// Room names are compared exactly (case-sensitive, untrimmed).
pub struct RoomsMessagesCache {
    entries: Vec<RoomHistory>,
    model: Ghost<Map<Seq<char>, Seq<Message>>>,
}

impl View for RoomsMessagesCache {
    type V = Map<Seq<char>, Seq<Message>>;

    closed spec fn view(&self) -> Map<Seq<char>, Seq<Message>> {
        self.model@
    }
}

impl RoomsMessagesCache {
    /// The entries hold one history per room, each within capacity, and agree with the model.
    pub closed spec fn wf(&self) -> bool {
        &&& forall|i: int, j: int|
            0 <= i < j < self.entries@.len() ==> (#[trigger] self.entries@[i]).room_spec()
                != (#[trigger] self.entries@[j]).room_spec()
        &&& forall|i: int|
            0 <= i < self.entries@.len() ==> {
                &&& (#[trigger] self.entries@[i]).wf()
                &&& self.model@.contains_key(self.entries@[i].room_spec())
                &&& self.model@[self.entries@[i].room_spec()] == self.entries@[i]@
            }
        &&& forall|k: Seq<char>|
            #[trigger] self.model@.contains_key(k) ==> exists|i: int|
                0 <= i < self.entries@.len() && (#[trigger] self.entries@[i]).room_spec() == k
    }

    /// An empty cache: no room has any history yet.
    pub fn new() -> (r: RoomsMessagesCache)
        ensures
            r.wf(),
            r@ == Map::<Seq<char>, Seq<Message>>::empty(),
    {
        RoomsMessagesCache { entries: Vec::new(), model: Ghost(Map::empty()) }
    }

    fn find(&self, room: &String) -> (r: Option<usize>)
        requires
            self.wf(),
        ensures
            match r {
                Some(i) => i < self.entries@.len() && self.entries@[i as int].room_spec() == room@,
                None => !self@.contains_key(room@),
            },
    {
        let mut i: usize = 0;
        while i < self.entries.len()
            invariant
                self.wf(),
                i <= self.entries@.len(),
                forall|j: int| 0 <= j < i ==> (#[trigger] self.entries@[j]).room_spec() != room@,
            decreases self.entries@.len() - i,
        {
            if self.entries[i].room().eq(room) {
                return Some(i);
            }
            i = i + 1;
        }
        None
    }

    /// A copy of the history of `room`, oldest first, or `None` when the room was never written.
    pub fn get(&self, room: &str) -> (r: Option<Vec<Message>>)
        requires
            self.wf(),
        ensures
            match r {
                Some(v) => self@.contains_key(room@) && v@ == self@[room@],
                None => !self@.contains_key(room@),
            },
    {
        let key = room.to_owned();
        match self.find(&key) {
            Some(i) => Some(self.entries[i].snapshot()),
            None => None,
        }
    }

    /// Appends `message` to the history of its room, creating the history when the room is new
    /// and evicting the room's oldest message when it would exceed the capacity.
    pub fn set(&mut self, message: Message)
        requires
            old(self).wf(),
        ensures
            final(self).wf(),
            final(self)@ == cache_append(old(self)@, message),
    {
        let ghost m = message;
        match self.find(&message.room) {
            None => {
                self.entries.push(RoomHistory::new(message));
                proof {
                    self.model@ = self.model@.insert(m.room@, seq![m]);
                    assert(retain_recent(Seq::empty(), m) =~= seq![m]);
                    let n = self.entries@.len() - 1;
                    assert forall|k: Seq<char>| #[trigger] self.model@.contains_key(k) implies exists|i: int|
                        0 <= i < self.entries@.len() && (#[trigger] self.entries@[i]).room_spec() == k by {
                        if k != m.room@ {
                            let i = choose|i: int|
                                0 <= i < old(self).entries@.len() && (#[trigger] old(self).entries@[i]).room_spec() == k;
                            assert(self.entries@[i] == old(self).entries@[i]);
                        } else {
                            assert(self.entries@[n].room_spec() == k);
                        }
                    }
                }
            },
            Some(i) => {
                let mut h = RoomHistory { room: String::new(), messages: Vec::new() };
                self.entries.set_and_swap(i, &mut h);
                h.push(message);
                self.entries.set_and_swap(i, &mut h);
                proof {
                    self.model@ = self.model@.insert(m.room@, self.entries@[i as int]@);
                    assert forall|k: Seq<char>| #[trigger] self.model@.contains_key(k) implies exists|j: int|
                        0 <= j < self.entries@.len() && (#[trigger] self.entries@[j]).room_spec() == k by {
                        let j = choose|j: int|
                            0 <= j < old(self).entries@.len() && (#[trigger] old(self).entries@[j]).room_spec() == k;
                        assert(self.entries@[j].room_spec() == k);
                    }
                }
            },
        }
    }
}

} // verus!
