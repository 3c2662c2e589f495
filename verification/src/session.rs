//! Connection session: the state machine around the live connection.
//!
//! A session moves `Disconnected -> Connecting -> Open`, and from `Open`
//! to `Closing`/`Closed` on an explicit close or to `Disconnected` on a
//! transport error; there is no automatic reconnection.  While `Open`,
//! each inbound frame is decoded and dispatched into the room registry or
//! the message store, and the session decides whether the frame warrants
//! a toast, a silent redraw, or nothing (a dropped frame).  Outbound chat
//! text is accepted only while `Open` with a conversation room selected;
//! an accepted send is appended optimistically to the history, marked as
//! the sender's own, so the sender sees it without waiting for an echo.
//! No duplicate suppression is attempted against the server's later echo
//! of the same message: the optimistic copy and the echo both stay.
//!
//! The surrounding I/O layer owns the socket; it hands inbound frames to
//! `handle_frame`, sends what `send_local` returns, and reports transport
//! events through the transition methods.  Every transition is one step
//! of the `session_step` function, which is what the append-only history
//! law is proved over.

use vstd::prelude::*;
use crate::codec::{spec_decode, decode_frame, Event, EventView};
use crate::registry::{
    RoomRegistry, RoomEntry, MemberEntry, spec_apply_join, spec_apply_quit, spec_apply_rename,
};
use crate::store::{MessageStore, MessageContent, MessageView, spec_append, messages_seq};

verus! {

/// The lifecycle state of the connection.
#[derive(Clone, Copy, PartialEq, Eq, Structural, Debug)]
pub enum ConnState {
    Disconnected,
    Connecting,
    Open,
    Closing,
    Closed,
}

/// The local member's identity, resolved once before the session starts.
pub struct Identity {
    pub session_id: String,
    pub display_name: String,
}

/// An outbound send that the session refused: the connection is not open
/// or no conversation room is selected.  Nothing was appended.
#[derive(Debug)]
pub struct SendError;

/// No local identity was available; the engine must not start without
/// one.
#[derive(Debug)]
pub struct IdentityMissing;

/// What one inbound frame led to.
pub enum FrameOutcome {
    /// A chat message arrived while the conversation view was closed:
    /// the message (already appended to history) should be raised as a
    /// toast.
    Toast(MessageContent),
    /// State may have changed silently; the view should re-read it.
    Redraw,
    /// The frame was malformed and has been dropped.
    Dropped,
}

/// The mathematical value of a session.
pub ghost struct SessionView {
    pub state: ConnState,
    pub identity: Option<(Seq<char>, Seq<char>)>,
    pub rooms: Map<Seq<char>, Map<Seq<char>, Seq<char>>>,
    pub history: Map<Seq<char>, Seq<MessageView>>,
    pub open_room: Option<Seq<char>>,
    pub dialog_visible: bool,
}

/// One step's worth of input to the session.
pub ghost enum SessionInput {
    Start { identity: Option<(Seq<char>, Seq<char>)> },
    Opened,
    Frame(Seq<char>),
    SendText(Seq<char>),
    OpenConversation(Seq<char>),
    CloseConversation,
    SelectRoom(Seq<char>),
    CloseRequested,
    ConnectionClosed,
    TransportFailed,
}

/// The local session id, for a session whose identity is resolved.
pub open spec fn local_id(v: SessionView) -> Seq<char> {
    match v.identity {
        Some(id) => id.0,
        None => Seq::empty(),
    }
}

/// The local display name, for a session whose identity is resolved.
pub open spec fn local_name(v: SessionView) -> Seq<char> {
    match v.identity {
        Some(id) => id.1,
        None => Seq::empty(),
    }
}

/// The optimistic local copy of an outbound chat message: id zero (not
/// yet round-tripped), no sender id, no timestamp, marked as own.
pub open spec fn own_message(v: SessionView, room: Seq<char>, content: Seq<char>) -> MessageView {
    MessageView {
        id: 0,
        room: room,
        from_id: Seq::empty(),
        from_name: local_name(v),
        content: content,
        time: Seq::empty(),
        is_own: true,
    }
}

/// How one input transforms the session.  Inputs that arrive in the
/// wrong state change nothing.
pub open spec fn session_step(v: SessionView, inp: SessionInput) -> SessionView {
    match inp {
        SessionInput::Start { identity } => {
            if v.state == ConnState::Disconnected && identity is Some {
                SessionView {
                    state: ConnState::Connecting,
                    identity: identity,
                    rooms: if v.rooms == Map::<Seq<char>, Map<Seq<char>, Seq<char>>>::empty() {
                        Map::empty().insert("main"@, Map::empty())
                    } else {
                        v.rooms
                    },
                    ..v
                }
            } else {
                v
            }
        },
        SessionInput::Opened => {
            if v.state == ConnState::Connecting {
                SessionView { state: ConnState::Open, ..v }
            } else {
                v
            }
        },
        SessionInput::Frame(f) => {
            if v.state == ConnState::Open {
                match spec_decode(f) {
                    None => v,
                    Some(EventView::Ignored) => v,
                    Some(EventView::Snapshot(m)) => SessionView { rooms: m, ..v },
                    Some(EventView::Joined { room, session_id, display_name }) => SessionView {
                        rooms: spec_apply_join(v.rooms, room, session_id, display_name, local_id(v)),
                        ..v
                    },
                    Some(EventView::Quit { room, session_id }) => SessionView {
                        rooms: spec_apply_quit(v.rooms, room, session_id, local_id(v)),
                        ..v
                    },
                    Some(EventView::Renamed { session_id, display_name }) => SessionView {
                        rooms: spec_apply_rename(v.rooms, session_id, display_name),
                        ..v
                    },
                    Some(EventView::Chat(m)) => SessionView {
                        history: spec_append(v.history, m),
                        ..v
                    },
                }
            } else {
                v
            }
        },
        SessionInput::SendText(content) => {
            if v.state == ConnState::Open && v.open_room is Some {
                SessionView {
                    history: spec_append(v.history, own_message(v, v.open_room->0, content)),
                    ..v
                }
            } else {
                v
            }
        },
        SessionInput::OpenConversation(room) => SessionView {
            open_room: Some(room),
            dialog_visible: true,
            ..v
        },
        SessionInput::CloseConversation => SessionView {
            open_room: None,
            dialog_visible: false,
            ..v
        },
        SessionInput::SelectRoom(room) => SessionView { open_room: Some(room), ..v },
        SessionInput::CloseRequested => {
            if v.state == ConnState::Open {
                SessionView { state: ConnState::Closing, ..v }
            } else {
                v
            }
        },
        SessionInput::ConnectionClosed => {
            if v.state == ConnState::Open || v.state == ConnState::Closing {
                SessionView { state: ConnState::Closed, ..v }
            } else {
                v
            }
        },
        SessionInput::TransportFailed => {
            if v.state == ConnState::Open {
                SessionView { state: ConnState::Disconnected, ..v }
            } else {
                v
            }
        },
    }
}

/// The session after a whole sequence of inputs, applied oldest first.
pub open spec fn session_run(v: SessionView, inputs: Seq<SessionInput>) -> SessionView
    decreases inputs.len(),
{
    if inputs.len() == 0 {
        v
    } else {
        session_step(session_run(v, inputs.drop_last()), inputs.last())
    }
}

/// Appending one message keeps every existing history: same rooms, the
/// old messages in place, the length never smaller.
pub proof fn lemma_append_keeps_history(h: Map<Seq<char>, Seq<MessageView>>, m: MessageView)
    ensures
        forall|r: Seq<char>| h.contains_key(r) ==> #[trigger] spec_append(h, m).contains_key(r),
        forall|r: Seq<char>| h.contains_key(r) ==> h[r].len() <= #[trigger] spec_append(h, m)[r].len(),
        forall|r: Seq<char>| h.contains_key(r) ==> #[trigger] spec_append(h, m)[r].take(
            h[r].len() as int,
        ) == h[r],
{
    assert forall|r: Seq<char>| h.contains_key(r) implies #[trigger] spec_append(h, m)[r].take(
        h[r].len() as int,
    ) == h[r] by {
        if r == m.room {
            assert(spec_append(h, m)[r] == h[r].push(m));
            assert(h[r].push(m).take(h[r].len() as int) =~= h[r]);
        } else {
            assert(spec_append(h, m)[r] == h[r]);
            assert(h[r].take(h[r].len() as int) =~= h[r]);
        }
    }
}

/// One step never shrinks a history: whatever a room's history held
/// before the step is still there, in place, afterwards.
pub proof fn lemma_step_keeps_history(v: SessionView, inp: SessionInput)
    ensures
        forall|r: Seq<char>| v.history.contains_key(r) ==> #[trigger] session_step(
            v,
            inp,
        ).history.contains_key(r),
        forall|r: Seq<char>| v.history.contains_key(r) ==> v.history[r].len()
            <= #[trigger] session_step(v, inp).history[r].len(),
        forall|r: Seq<char>| v.history.contains_key(r) ==> #[trigger] session_step(
            v,
            inp,
        ).history[r].take(v.history[r].len() as int) == v.history[r],
{
    let h1 = session_step(v, inp).history;
    if h1 == v.history {
        assert forall|r: Seq<char>| v.history.contains_key(r) implies #[trigger] h1[r].take(
            v.history[r].len() as int,
        ) == v.history[r] by {
            assert(v.history[r].take(v.history[r].len() as int) =~= v.history[r]);
        }
    } else {
        match inp {
            SessionInput::Frame(f) => {
                match spec_decode(f) {
                    Some(EventView::Chat(m)) => {
                        lemma_append_keeps_history(v.history, m);
                    },
                    _ => {
                        assert forall|r: Seq<char>| v.history.contains_key(r) implies
                            #[trigger] h1[r].take(v.history[r].len() as int) == v.history[r] by {
                            assert(v.history[r].take(v.history[r].len() as int) =~= v.history[r]);
                        }
                    },
                }
            },
            SessionInput::SendText(content) => {
                if v.state == ConnState::Open && v.open_room is Some {
                    lemma_append_keeps_history(
                        v.history,
                        own_message(v, v.open_room->0, content),
                    );
                }
            },
            _ => {},
        }
    }
}

/// History is monotonically non-decreasing: over any sequence of session
/// inputs, a room's history only grows at its end — its length never
/// decreases, and the messages it held stay at their places.  No input
/// of a running session truncates a history; histories vanish only with
/// the session itself.
pub proof fn lemma_history_monotone(v: SessionView, inputs: Seq<SessionInput>)
    ensures
        forall|r: Seq<char>| v.history.contains_key(r) ==> #[trigger] session_run(
            v,
            inputs,
        ).history.contains_key(r),
        forall|r: Seq<char>| v.history.contains_key(r) ==> v.history[r].len()
            <= #[trigger] session_run(v, inputs).history[r].len(),
        forall|r: Seq<char>| v.history.contains_key(r) ==> #[trigger] session_run(
            v,
            inputs,
        ).history[r].take(v.history[r].len() as int) == v.history[r],
    decreases inputs.len(),
{
    if inputs.len() == 0 {
        assert forall|r: Seq<char>| v.history.contains_key(r) implies #[trigger] session_run(
            v,
            inputs,
        ).history[r].take(v.history[r].len() as int) == v.history[r] by {
            assert(v.history[r].take(v.history[r].len() as int) =~= v.history[r]);
        }
    } else {
        let mid = session_run(v, inputs.drop_last());
        lemma_history_monotone(v, inputs.drop_last());
        lemma_step_keeps_history(mid, inputs.last());
        assert forall|r: Seq<char>| v.history.contains_key(r) implies #[trigger] session_run(
            v,
            inputs,
        ).history[r].take(v.history[r].len() as int) == v.history[r] by {
            let s0 = v.history[r];
            let s1 = mid.history[r];
            let s2 = session_run(v, inputs).history[r];
            assert(s1.take(s0.len() as int) == s0);
            assert(s2.take(s1.len() as int) == s1);
            assert forall|t: int| 0 <= t < s0.len() implies s2.take(s0.len() as int)[t] == s0[t]
                by {
                assert(s1.take(s0.len() as int)[t] == s0[t]);
                assert(s2.take(s1.len() as int)[t] == s1[t]);
            }
            assert(s2.take(s0.len() as int) =~= s0);
        }
    }
}

/// The session: the single owner of the registry, the store and the
/// dialog state, driven by the receive loop and the view's actions.
pub struct Session {
    state: ConnState,
    identity: Option<Identity>,
    registry: RoomRegistry,
    store: MessageStore,
    open_room: Option<String>,
    dialog_visible: bool,
}

impl View for Session {
    type V = SessionView;

    closed spec fn view(&self) -> SessionView {
        SessionView {
            state: self.state,
            identity: match self.identity {
                Some(ref id) => Some((id.session_id@, id.display_name@)),
                None => None,
            },
            rooms: self.registry@,
            history: self.store@,
            open_room: match self.open_room {
                Some(ref r) => Some(r@),
                None => None,
            },
            dialog_visible: self.dialog_visible,
        }
    }
}

impl Session {
    /// The structures behind the view are well formed, and a session
    /// past `Disconnected` has its identity resolved.
    pub closed spec fn inv(&self) -> bool {
        &&& self.registry.inv()
        &&& self.registry.named()
        &&& self.store.inv()
        &&& self.state != ConnState::Disconnected ==> self.identity is Some
    }

    /// A fresh, disconnected session with empty state.
    pub fn new() -> (r: Session)
        ensures
            r.inv(),
            r@.state == ConnState::Disconnected,
            r@.identity is None,
            r@.rooms == Map::<Seq<char>, Map<Seq<char>, Seq<char>>>::empty(),
            r@.history == Map::<Seq<char>, Seq<MessageView>>::empty(),
            r@.open_room is None,
            r@.dialog_visible == false,
    {
        Session {
            state: ConnState::Disconnected,
            identity: None,
            registry: RoomRegistry::new(),
            store: MessageStore::new(),
            open_room: None,
            dialog_visible: false,
        }
    }

    /// The current lifecycle state.
    pub fn state(&self) -> (r: ConnState)
        ensures
            r == self@.state,
    {
        self.state
    }

    /// Whether the conversation view is open.
    pub fn dialog_visible(&self) -> (r: bool)
        ensures
            r == self@.dialog_visible,
    {
        self.dialog_visible
    }

    /// Starts the session: resolves it to `Connecting` and seeds the
    /// default room when the registry is empty.  Without an identity the
    /// engine must not start, so `None` is refused and nothing changes.
    pub fn start(&mut self, identity: Option<Identity>) -> (r: Result<(), IdentityMissing>)
        requires
            old(self).inv(),
            old(self)@.state == ConnState::Disconnected,
        ensures
            final(self).inv(),
            final(self)@ == session_step(
                old(self)@,
                SessionInput::Start {
                    identity: match identity {
                        Some(ref id) => Some((id.session_id@, id.display_name@)),
                        None => None,
                    },
                },
            ),
            r is Ok <==> identity is Some,
    {
        match identity {
            None => Err(IdentityMissing),
            Some(id) => {
                self.identity = Some(id);
                self.state = ConnState::Connecting;
                if self.registry.is_empty() {
                    let seed = RoomEntry { name: "main".to_owned(), members: Vec::new() };
                    let mut rooms: Vec<RoomEntry> = Vec::new();
                    rooms.push(seed);
                    proof {
                        crate::registry::lemma_rooms_map_push(
                            Seq::<RoomEntry>::empty(),
                            rooms@[0],
                        );
                        assert(rooms@.drop_last() =~= Seq::<RoomEntry>::empty());
                    }
                    self.registry.apply_snapshot(rooms);
                    proof {
                        assert(self.registry@ =~= Map::<
                            Seq<char>,
                            Map<Seq<char>, Seq<char>>,
                        >::empty().insert("main"@, Map::empty()));
                    }
                }
                Ok(())
            },
        }
    }

    /// Marks the socket as established: `Connecting -> Open`.  The
    /// returned announcement frame is sent to the peer at once.
    pub fn opened(&mut self) -> (announce: String)
        requires
            old(self).inv(),
            old(self)@.state == ConnState::Connecting,
        ensures
            final(self).inv(),
            final(self)@ == session_step(old(self)@, SessionInput::Opened),
            announce@ == "i am back online!"@,
    {
        self.state = ConnState::Open;
        "i am back online!".to_owned()
    }

    /// Decodes and dispatches one inbound frame, and decides how the
    /// view layer is told: a malformed frame is dropped; a chat message
    /// is appended to history and raises a toast exactly when the
    /// conversation view is closed; every other recognized or ignored
    /// frame asks for a silent redraw.
    pub fn handle_frame(&mut self, frame: &str) -> (r: FrameOutcome)
        requires
            old(self).inv(),
            old(self)@.state == ConnState::Open,
        ensures
            final(self).inv(),
            final(self)@ == session_step(old(self)@, SessionInput::Frame(frame@)),
            match spec_decode(frame@) {
                None => r is Dropped,
                Some(ev) => match ev {
                    EventView::Chat(m) => if old(self)@.dialog_visible {
                        r is Redraw
                    } else {
                        r matches FrameOutcome::Toast(t) && t@ == m
                    },
                    _ => r is Redraw,
                },
            },
            spec_decode(frame@) matches Some(EventView::Chat(m)) ==> final(self)@.history
                == spec_append(old(self)@.history, m),
    {
        let decoded = decode_frame(frame);
        match decoded {
            Err(e) => FrameOutcome::Dropped,
            Ok(ev) => {
                match ev {
                    Event::Ignored => FrameOutcome::Redraw,
                    Event::Snapshot(rooms) => {
                        self.registry.apply_snapshot(rooms);
                        FrameOutcome::Redraw
                    },
                    Event::Joined { room, session_id, display_name } => {
                        let local = self.local_session_id();
                        self.registry.apply_join(
                            room.as_str(),
                            session_id.as_str(),
                            display_name.as_str(),
                            local.as_str(),
                        );
                        FrameOutcome::Redraw
                    },
                    Event::Quit { room, session_id } => {
                        let local = self.local_session_id();
                        self.registry.apply_quit(room.as_str(), session_id.as_str(), local.as_str());
                        FrameOutcome::Redraw
                    },
                    Event::Renamed { session_id, display_name } => {
                        self.registry.apply_rename(session_id.as_str(), display_name.as_str());
                        FrameOutcome::Redraw
                    },
                    Event::Chat(m) => {
                        let visible = self.dialog_visible;
                        if visible {
                            self.store.append(m);
                            FrameOutcome::Redraw
                        } else {
                            let copy = m.duplicate();
                            self.store.append(m);
                            FrameOutcome::Toast(copy)
                        }
                    },
                }
            },
        }
    }

    /// Accepts outbound chat text for the selected room: the text itself
    /// is the outbound frame, and an optimistic own-copy goes to the
    /// room's history.  Refused, with nothing appended, unless the
    /// connection is open and a room is selected.
    pub fn send_local(&mut self, content: &str) -> (r: Result<String, SendError>)
        requires
            old(self).inv(),
        ensures
            final(self).inv(),
            final(self)@ == session_step(old(self)@, SessionInput::SendText(content@)),
            r is Ok <==> (old(self)@.state == ConnState::Open && old(self)@.open_room is Some),
            match r {
                Ok(out) => out@ == content@,
                Err(e) => final(self)@ == old(self)@,
            },
    {
        if !matches!(self.state, ConnState::Open) {
            return Err(SendError);
        }
        let room = match self.open_room {
            Some(ref r) => r.clone(),
            None => {
                return Err(SendError);
            },
        };
        let name = match self.identity {
            Some(ref id) => id.display_name.clone(),
            None => crate::text::empty_string(),
        };
        let msg = MessageContent {
            id: 0,
            room: room,
            from_id: crate::text::empty_string(),
            from_name: name,
            content: content.to_owned(),
            time: crate::text::empty_string(),
            is_own: true,
        };
        self.store.append(msg);
        Ok(content.to_owned())
    }

    /// Opens the conversation view on a room.
    pub fn open_conversation(&mut self, room: &str)
        requires
            old(self).inv(),
        ensures
            final(self).inv(),
            final(self)@ == session_step(old(self)@, SessionInput::OpenConversation(room@)),
    {
        self.open_room = Some(room.to_owned());
        self.dialog_visible = true;
    }

    /// Closes the conversation view; the socket stays open.
    pub fn close_conversation(&mut self)
        requires
            old(self).inv(),
        ensures
            final(self).inv(),
            final(self)@ == session_step(old(self)@, SessionInput::CloseConversation),
    {
        self.open_room = None;
        self.dialog_visible = false;
    }

    /// Switches the conversation view to another room.
    pub fn select_room(&mut self, room: &str)
        requires
            old(self).inv(),
        ensures
            final(self).inv(),
            final(self)@ == session_step(old(self)@, SessionInput::SelectRoom(room@)),
    {
        self.open_room = Some(room.to_owned());
    }

    /// An explicit close was requested: `Open -> Closing`.
    pub fn request_close(&mut self)
        requires
            old(self).inv(),
        ensures
            final(self).inv(),
            final(self)@ == session_step(old(self)@, SessionInput::CloseRequested),
    {
        if matches!(self.state, ConnState::Open) {
            self.state = ConnState::Closing;
        }
    }

    /// The peer closed the connection; the receive loop has ended.
    pub fn connection_closed(&mut self)
        requires
            old(self).inv(),
        ensures
            final(self).inv(),
            final(self)@ == session_step(old(self)@, SessionInput::ConnectionClosed),
    {
        if matches!(self.state, ConnState::Open) || matches!(self.state, ConnState::Closing) {
            self.state = ConnState::Closed;
        }
    }

    /// A transport error ended the receive loop; no automatic retry.
    pub fn transport_failed(&mut self)
        requires
            old(self).inv(),
        ensures
            final(self).inv(),
            final(self)@ == session_step(old(self)@, SessionInput::TransportFailed),
    {
        if matches!(self.state, ConnState::Open) {
            self.state = ConnState::Disconnected;
        }
    }

    /// The local session id, empty before the session started.
    fn local_session_id(&self) -> (r: String)
        ensures
            r@ == local_id(self@),
    {
        match self.identity {
            Some(ref id) => id.session_id.clone(),
            None => crate::text::empty_string(),
        }
    }

    /// The names of all known rooms, without duplicates.
    pub fn room_names(&self) -> (r: Vec<String>)
        requires
            self.inv(),
        ensures
            forall|i: int| 0 <= i < r@.len() ==> self@.rooms.contains_key((#[trigger] r@[i])@),
            forall|room: Seq<char>| self@.rooms.contains_key(room) ==> exists|i: int|
                0 <= i < r@.len() && (#[trigger] r@[i])@ == room,
            forall|i: int, j: int| 0 <= i < j < r@.len() ==> (#[trigger] r@[i])@ != (
            #[trigger] r@[j])@,
    {
        self.registry.room_names()
    }

    /// A copy of a room's member list; empty for an unknown room.
    pub fn members_of(&self, room: &str) -> (r: Vec<MemberEntry>)
        requires
            self.inv(),
        ensures
            crate::registry::unique_members(r@),
            self@.rooms.contains_key(room@) ==> crate::registry::members_map(r@)
                == self@.rooms[room@],
            !self@.rooms.contains_key(room@) ==> r@.len() == 0,
    {
        self.registry.members_of(room)
    }

    /// The display name under which a session appears in a room.
    pub fn member_name(&self, room: &str, session_id: &str) -> (r: Option<String>)
        requires
            self.inv(),
        ensures
            match r {
                Some(n) => self@.rooms.contains_key(room@) && self@.rooms[room@].contains_key(
                    session_id@,
                ) && n@ == self@.rooms[room@][session_id@],
                None => !(self@.rooms.contains_key(room@) && self@.rooms[room@].contains_key(
                    session_id@,
                )),
            },
    {
        self.registry.member_name(room, session_id)
    }

    /// Whether a room is currently known.
    pub fn contains_room(&self, room: &str) -> (r: bool)
        requires
            self.inv(),
        ensures
            r == self@.rooms.contains_key(room@),
    {
        self.registry.contains_room(room)
    }

    /// A copy of the ordered history of a room; empty for an unknown
    /// room.
    pub fn read_history(&self, room: &str) -> (r: Vec<MessageContent>)
        requires
            self.inv(),
        ensures
            self@.history.contains_key(room@) ==> messages_seq(r@) == self@.history[room@],
            !self@.history.contains_key(room@) ==> r@.len() == 0,
    {
        self.store.read(room)
    }

    /// The number of messages stored for a room.
    pub fn history_len(&self, room: &str) -> (r: usize)
        requires
            self.inv(),
        ensures
            self@.history.contains_key(room@) ==> r == self@.history[room@].len(),
            !self@.history.contains_key(room@) ==> r == 0,
    {
        self.store.history_len(room)
    }
}

} // verus!
