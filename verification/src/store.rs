//! Message store: the per-room message history.
//!
//! History is keyed by room name, created lazily on first append, and only
//! ever appended to — messages are immutable once stored and nothing
//! reorders or truncates a history while the session lives.  Reading the
//! history of an unknown room yields an empty sequence, never an error.

use vstd::prelude::*;

verus! {

/// One chat message as the engine stores it.
///
/// `id` is an opaque server-side number, `0` for a message that
/// originated locally and has not round-tripped.  `is_own` is a local
/// annotation — it never travels on the wire — marking the optimistic
/// copy of a message this client sent itself.
pub struct MessageContent {
    pub id: u128,
    pub room: String,
    pub from_id: String,
    pub from_name: String,
    pub content: String,
    pub time: String,
    pub is_own: bool,
}

/// The mathematical value of a message: its fields as sequences.
pub ghost struct MessageView {
    pub id: u128,
    pub room: Seq<char>,
    pub from_id: Seq<char>,
    pub from_name: Seq<char>,
    pub content: Seq<char>,
    pub time: Seq<char>,
    pub is_own: bool,
}

impl View for MessageContent {
    type V = MessageView;

    open spec fn view(&self) -> MessageView {
        MessageView {
            id: self.id,
            room: self.room@,
            from_id: self.from_id@,
            from_name: self.from_name@,
            content: self.content@,
            time: self.time@,
            is_own: self.is_own,
        }
    }
}

impl MessageContent {
    /// A field-for-field copy.
    pub fn duplicate(&self) -> (r: MessageContent)
        ensures
            r@ == self@,
    {
        MessageContent {
            id: self.id,
            room: self.room.clone(),
            from_id: self.from_id.clone(),
            from_name: self.from_name.clone(),
            content: self.content.clone(),
            time: self.time.clone(),
            is_own: self.is_own,
        }
    }
}

/// The history of one room.
struct HistoryEntry {
    room: String,
    messages: Vec<MessageContent>,
}

/// The mathematical value of a message list.
pub open spec fn messages_seq(s: Seq<MessageContent>) -> Seq<MessageView> {
    s.map_values(|m: MessageContent| m@)
}

/// The mathematical contents of a history list.
spec fn histories_map(s: Seq<HistoryEntry>) -> Map<Seq<char>, Seq<MessageView>>
    decreases s.len(),
{
    if s.len() == 0 {
        Map::empty()
    } else {
        histories_map(s.drop_last()).insert(
            s.last().room@,
            messages_seq(s.last().messages@),
        )
    }
}

/// Whether some entry of a history list carries the given room name.
spec fn has_history(s: Seq<HistoryEntry>, r: Seq<char>) -> bool {
    exists|i: int| 0 <= i < s.len() && (#[trigger] s[i]).room@ == r
}

/// No two entries of a history list share a room name.
spec fn unique_histories(s: Seq<HistoryEntry>) -> bool {
    forall|i: int, j: int|
        0 <= i < j < s.len() ==> (#[trigger] s[i]).room@ != (#[trigger] s[j]).room@
}

/// The keys of `histories_map` are exactly the room names of the list.
proof fn lemma_histories_map_domain(s: Seq<HistoryEntry>)
    ensures
        forall|r: Seq<char>| histories_map(s).contains_key(r) == has_history(s, r),
    decreases s.len(),
{
    if s.len() == 0 {
    } else {
        lemma_histories_map_domain(s.drop_last());
        assert forall|r: Seq<char>| histories_map(s).contains_key(r) == has_history(s, r) by {
            if histories_map(s).contains_key(r) {
                if r == s.last().room@ {
                    assert((#[trigger] s[s.len() - 1]).room@ == r);
                    assert(has_history(s, r));
                } else {
                    assert(has_history(s.drop_last(), r));
                    let i = choose|i: int|
                        0 <= i < s.drop_last().len() && (#[trigger] s.drop_last()[i]).room@ == r;
                    assert(s.drop_last()[i] == s[i]);
                    assert((#[trigger] s[i]).room@ == r);
                    assert(has_history(s, r));
                }
            }
            if has_history(s, r) {
                let i = choose|i: int| 0 <= i < s.len() && (#[trigger] s[i]).room@ == r;
                if i < s.len() - 1 {
                    assert((#[trigger] s.drop_last()[i]).room@ == r);
                    assert(has_history(s.drop_last(), r));
                } else {
                    assert(r == s.last().room@);
                }
                assert(histories_map(s).contains_key(r));
            }
        }
    }
}

/// Under uniqueness, each entry of the list is what the map holds at its
/// room name.
proof fn lemma_histories_map_index(s: Seq<HistoryEntry>, i: int)
    requires
        unique_histories(s),
        0 <= i < s.len(),
    ensures
        histories_map(s).contains_key(s[i].room@),
        histories_map(s)[s[i].room@] == messages_seq(s[i].messages@),
    decreases s.len(),
{
    if i == s.len() - 1 {
    } else {
        assert(unique_histories(s.drop_last()));
        assert(s.drop_last()[i] == s[i]);
        lemma_histories_map_index(s.drop_last(), i);
        assert(s[i].room@ != s.last().room@);
    }
}

/// Appending a fresh entry inserts its binding.
proof fn lemma_histories_map_push(s: Seq<HistoryEntry>, e: HistoryEntry)
    ensures
        histories_map(s.push(e)) == histories_map(s).insert(e.room@, messages_seq(e.messages@)),
{
    assert(s.push(e).drop_last() =~= s);
    assert(s.push(e).last() == e);
}

/// Overwriting an entry in place, keeping its room name, updates its
/// binding.
proof fn lemma_histories_map_update(s: Seq<HistoryEntry>, i: int, e: HistoryEntry)
    requires
        unique_histories(s),
        0 <= i < s.len(),
        e.room@ == s[i].room@,
    ensures
        histories_map(s.update(i, e)) == histories_map(s).insert(
            e.room@,
            messages_seq(e.messages@),
        ),
    decreases s.len(),
{
    if i == s.len() - 1 {
        assert(s.update(i, e).drop_last() =~= s.drop_last());
        assert(s.update(i, e).last() == e);
        assert(histories_map(s.drop_last()).insert(s.last().room@, messages_seq(s.last().messages@))
            .insert(e.room@, messages_seq(e.messages@)) =~= histories_map(s.drop_last()).insert(
            e.room@,
            messages_seq(e.messages@),
        ));
    } else {
        assert(unique_histories(s.drop_last()));
        assert(s.drop_last()[i] == s[i]);
        lemma_histories_map_update(s.drop_last(), i, e);
        assert(s.update(i, e).drop_last() =~= s.drop_last().update(i, e));
        assert(s.update(i, e).last() == s.last());
        assert(s[i].room@ != s.last().room@);
        assert(histories_map(s.drop_last()).insert(e.room@, messages_seq(e.messages@)).insert(
            s.last().room@,
            messages_seq(s.last().messages@),
        ) =~= histories_map(s.drop_last()).insert(s.last().room@, messages_seq(s.last().messages@))
            .insert(e.room@, messages_seq(e.messages@)));
    }
}

/// What appending one message does to the history map: the history of the
/// message's room is created empty if absent, then the message goes to
/// its end.
pub open spec fn spec_append(
    v: Map<Seq<char>, Seq<MessageView>>,
    m: MessageView,
) -> Map<Seq<char>, Seq<MessageView>> {
    let before = if v.contains_key(m.room) {
        v[m.room]
    } else {
        Seq::empty()
    };
    v.insert(m.room, before.push(m))
}

/// The per-room message history of the current session.
pub struct MessageStore {
    histories: Vec<HistoryEntry>,
}

impl View for MessageStore {
    type V = Map<Seq<char>, Seq<MessageView>>;

    closed spec fn view(&self) -> Map<Seq<char>, Seq<MessageView>> {
        histories_map(self.histories@)
    }
}

impl MessageStore {
    /// Room names are unique, so the association list carries exactly its
    /// map.
    pub closed spec fn inv(&self) -> bool {
        unique_histories(self.histories@)
    }

    /// An empty store.
    pub fn new() -> (r: MessageStore)
        ensures
            r@ == Map::<Seq<char>, Seq<MessageView>>::empty(),
            r.inv(),
    {
        MessageStore { histories: Vec::new() }
    }

    /// The index of the history for the given room.
    fn find_history(&self, room: &str) -> (r: Option<usize>)
        ensures
            match r {
                Some(i) => i < self.histories@.len() && self.histories@[i as int].room@ == room@,
                None => !has_history(self.histories@, room@),
            },
    {
        let n = self.histories.len();
        let mut i: usize = 0;
        while i < n
            invariant
                n == self.histories@.len(),
                i <= n,
                forall|t: int| 0 <= t < i ==> (#[trigger] self.histories@[t]).room@ != room@,
            decreases n - i,
        {
            if crate::text::str_eq(self.histories[i].room.as_str(), room) {
                return Some(i);
            }
            i = i + 1;
        }
        proof {
            if has_history(self.histories@, room@) {
                let t = choose|t: int|
                    0 <= t < self.histories@.len() && (#[trigger] self.histories@[t]).room@
                        == room@;
            }
        }
        None
    }

    /// Appends a message to the history of its room, creating that
    /// history if it does not exist yet.  Nothing else changes: histories
    /// of other rooms are untouched, and the room's earlier messages keep
    /// their places.
    pub fn append(&mut self, message: MessageContent)
        requires
            old(self).inv(),
        ensures
            final(self).inv(),
            final(self)@ == spec_append(old(self)@, message@),
    {
        proof {
            lemma_histories_map_domain(self.histories@);
        }
        let ghost room_key = message.room@;
        let found = self.find_history(message.room.as_str());
        match found {
            Some(i) => {
                proof {
                    lemma_histories_map_index(self.histories@, i as int);
                }
                let ghost before = self.histories@;
                let entry = &mut self.histories[i];
                let ghost msgs_before = entry.messages@;
                entry.messages.push(message);
                proof {
                    assert(messages_seq(entry.messages@) =~= messages_seq(msgs_before).push(
                        entry.messages@.last()@,
                    ));
                    lemma_histories_map_update(before, i as int, self.histories@[i as int]);
                    assert forall|a: int, b: int|
                        0 <= a < b < self.histories@.len() implies (
                    #[trigger] self.histories@[a]).room@ != (#[trigger] self.histories@[b]).room@
                        by {
                        assert(before[a].room@ != before[b].room@);
                    }
                    assert(final(self)@ =~= spec_append(old(self)@, message@));
                }
            },
            None => {
                let ghost mv = message@;
                let entry = HistoryEntry {
                    room: message.room.clone(),
                    messages: vec![message],
                };
                proof {
                    lemma_histories_map_push(self.histories@, entry);
                    let s = self.histories@;
                    assert forall|a: int, b: int|
                        0 <= a < b < s.push(entry).len() implies (#[trigger] s.push(entry)[a]).room@
                        != (#[trigger] s.push(entry)[b]).room@ by {
                        if b < s.len() {
                            assert(s.push(entry)[a] == s[a]);
                            assert(s.push(entry)[b] == s[b]);
                        } else {
                            assert(s.push(entry)[a] == s[a]);
                            assert(s.push(entry)[b] == entry);
                        }
                    }
                    assert(messages_seq(entry.messages@) =~= Seq::empty().push(mv));
                }
                self.histories.push(entry);
                proof {
                    assert(final(self)@ =~= spec_append(old(self)@, mv));
                }
            },
        }
    }

    /// A copy of the ordered history of a room; an unknown room yields an
    /// empty list.
    pub fn read(&self, room: &str) -> (r: Vec<MessageContent>)
        requires
            self.inv(),
        ensures
            self@.contains_key(room@) ==> messages_seq(r@) == self@[room@],
            !self@.contains_key(room@) ==> r@.len() == 0,
    {
        proof {
            lemma_histories_map_domain(self.histories@);
        }
        let found = self.find_history(room);
        match found {
            Some(i) => {
                proof {
                    lemma_histories_map_index(self.histories@, i as int);
                    assert((#[trigger] self.histories@[i as int]).room@ == room@);
                }
                let messages = &self.histories[i].messages;
                let n = messages.len();
                let mut r: Vec<MessageContent> = Vec::new();
                let mut j: usize = 0;
                while j < n
                    invariant
                        n == messages@.len(),
                        j <= n,
                        r@.len() == j,
                        forall|t: int| 0 <= t < j ==> (#[trigger] r@[t])@ == messages@[t]@,
                    decreases n - j,
                {
                    r.push(messages[j].duplicate());
                    j = j + 1;
                }
                proof {
                    assert(messages_seq(r@) =~= messages_seq(messages@));
                }
                r
            },
            None => {
                Vec::new()
            },
        }
    }

    /// The number of messages stored for a room; zero for an unknown
    /// room.
    pub fn history_len(&self, room: &str) -> (r: usize)
        requires
            self.inv(),
        ensures
            self@.contains_key(room@) ==> r == self@[room@].len(),
            !self@.contains_key(room@) ==> r == 0,
    {
        proof {
            lemma_histories_map_domain(self.histories@);
        }
        let found = self.find_history(room);
        match found {
            Some(i) => {
                proof {
                    lemma_histories_map_index(self.histories@, i as int);
                    assert((#[trigger] self.histories@[i as int]).room@ == room@);
                }
                self.histories[i].messages.len()
            },
            None => 0,
        }
    }
}

} // verus!
