//! Room registry: which rooms exist and who is in each of them.
//!
//! A room maps member session ids to display names.  The registry is the
//! single source of truth for membership and is mutated only by protocol
//! events: a full snapshot replaces it wholesale, and join / quit / rename
//! events edit it incrementally.  Join and quit treat the local session
//! asymmetrically: a self-join materializes the room even when it is not
//! yet known, and a self-quit removes the whole room rather than one
//! member.
//!
//! Rooms and members are stored as association lists with unique keys; the
//! mathematical model of a registry is the nested map
//! `room name -> (session id -> display name)`.

use vstd::prelude::*;

verus! {

/// One member of a room: a session id and the display name shown for it.
pub struct MemberEntry {
    pub session_id: String,
    pub display_name: String,
}

/// One room: its name and its member set.
pub struct RoomEntry {
    pub name: String,
    pub members: Vec<MemberEntry>,
}

/// The mathematical contents of a member list.
pub open spec fn members_map(s: Seq<MemberEntry>) -> Map<Seq<char>, Seq<char>>
    decreases s.len(),
{
    if s.len() == 0 {
        Map::empty()
    } else {
        members_map(s.drop_last()).insert(s.last().session_id@, s.last().display_name@)
    }
}

/// Whether some entry of a member list carries the given session id.
pub open spec fn has_member(s: Seq<MemberEntry>, k: Seq<char>) -> bool {
    exists|i: int| 0 <= i < s.len() && (#[trigger] s[i]).session_id@ == k
}

/// No two entries of a member list share a session id.
pub open spec fn unique_members(s: Seq<MemberEntry>) -> bool {
    forall|i: int, j: int|
        0 <= i < j < s.len() ==> (#[trigger] s[i]).session_id@ != (#[trigger] s[j]).session_id@
}

/// Every display name in a member list is non-empty.
pub open spec fn members_named(s: Seq<MemberEntry>) -> bool {
    forall|i: int| 0 <= i < s.len() ==> (#[trigger] s[i]).display_name@.len() > 0
}

/// The keys of `members_map` are exactly the session ids of the list.
pub proof fn lemma_members_map_domain(s: Seq<MemberEntry>)
    ensures
        forall|k: Seq<char>| members_map(s).contains_key(k) == has_member(s, k),
        members_map(s).dom().finite(),
        members_map(s).len() <= s.len(),
    decreases s.len(),
{
    if s.len() == 0 {
    } else {
        lemma_members_map_domain(s.drop_last());
        assert forall|k: Seq<char>| members_map(s).contains_key(k) == has_member(s, k) by {
            if members_map(s).contains_key(k) {
                if k == s.last().session_id@ {
                    assert((#[trigger] s[s.len() - 1]).session_id@ == k);
                    assert(has_member(s, k));
                } else {
                    assert(members_map(s.drop_last()).contains_key(k));
                    assert(has_member(s.drop_last(), k));
                    let i = choose|i: int|
                        0 <= i < s.drop_last().len() && (#[trigger] s.drop_last()[i]).session_id@
                            == k;
                    assert(s.drop_last()[i] == s[i]);
                    assert((#[trigger] s[i]).session_id@ == k);
                    assert(has_member(s, k));
                }
            }
            if has_member(s, k) {
                let i = choose|i: int| 0 <= i < s.len() && (#[trigger] s[i]).session_id@ == k;
                if i < s.len() - 1 {
                    assert((#[trigger] s.drop_last()[i]).session_id@ == k);
                    assert(has_member(s.drop_last(), k));
                } else {
                    assert(k == s.last().session_id@);
                }
                assert(members_map(s).contains_key(k));
            }
        }
    }
}

/// Under uniqueness, each entry of the list is what the map holds at its key.
pub proof fn lemma_members_map_index(s: Seq<MemberEntry>, i: int)
    requires
        unique_members(s),
        0 <= i < s.len(),
    ensures
        members_map(s).contains_key(s[i].session_id@),
        members_map(s)[s[i].session_id@] == s[i].display_name@,
    decreases s.len(),
{
    if i == s.len() - 1 {
    } else {
        assert(unique_members(s.drop_last()));
        assert(s.drop_last()[i] == s[i]);
        lemma_members_map_index(s.drop_last(), i);
        assert(s[i].session_id@ != s.last().session_id@);
    }
}

/// Appending a fresh entry inserts its binding.
pub proof fn lemma_members_map_push(s: Seq<MemberEntry>, e: MemberEntry)
    ensures
        members_map(s.push(e)) == members_map(s).insert(e.session_id@, e.display_name@),
{
    assert(s.push(e).drop_last() =~= s);
    assert(s.push(e).last() == e);
}

/// Overwriting an entry in place, keeping its key, updates its binding.
pub proof fn lemma_members_map_update(s: Seq<MemberEntry>, i: int, e: MemberEntry)
    requires
        unique_members(s),
        0 <= i < s.len(),
        e.session_id@ == s[i].session_id@,
    ensures
        members_map(s.update(i, e)) == members_map(s).insert(e.session_id@, e.display_name@),
    decreases s.len(),
{
    if i == s.len() - 1 {
        assert(s.update(i, e).drop_last() =~= s.drop_last());
        assert(s.update(i, e).last() == e);
        assert(members_map(s.drop_last()).insert(s.last().session_id@, s.last().display_name@)
            .insert(e.session_id@, e.display_name@) =~= members_map(s.drop_last()).insert(
            e.session_id@,
            e.display_name@,
        ));
    } else {
        assert(unique_members(s.drop_last()));
        assert(s.drop_last()[i] == s[i]);
        lemma_members_map_update(s.drop_last(), i, e);
        assert(s.update(i, e).drop_last() =~= s.drop_last().update(i, e));
        assert(s.update(i, e).last() == s.last());
        assert(s[i].session_id@ != s.last().session_id@);
        assert(members_map(s.drop_last()).insert(e.session_id@, e.display_name@).insert(
            s.last().session_id@,
            s.last().display_name@,
        ) =~= members_map(s.drop_last()).insert(s.last().session_id@, s.last().display_name@)
            .insert(e.session_id@, e.display_name@));
    }
}

/// Removing an entry removes its binding.
pub proof fn lemma_members_map_remove(s: Seq<MemberEntry>, i: int)
    requires
        unique_members(s),
        0 <= i < s.len(),
    ensures
        members_map(s.remove(i)) == members_map(s).remove(s[i].session_id@),
    decreases s.len(),
{
    let k = s[i].session_id@;
    if i == s.len() - 1 {
        assert(s.remove(i) =~= s.drop_last());
        lemma_members_map_domain(s.drop_last());
        assert(!has_member(s.drop_last(), k)) by {
            if has_member(s.drop_last(), k) {
                let j = choose|j: int|
                    0 <= j < s.drop_last().len() && (#[trigger] s.drop_last()[j]).session_id@ == k;
                assert(s[j].session_id@ == s[i].session_id@);
            }
        }
        assert(members_map(s.drop_last()) =~= members_map(s.drop_last()).insert(
            k,
            s.last().display_name@,
        ).remove(k));
    } else {
        assert(unique_members(s.drop_last()));
        assert(s.drop_last()[i] == s[i]);
        lemma_members_map_remove(s.drop_last(), i);
        assert(s.remove(i).drop_last() =~= s.drop_last().remove(i));
        assert(s.remove(i).last() == s.last());
        assert(s[i].session_id@ != s.last().session_id@);
        assert(members_map(s.drop_last()).remove(k).insert(
            s.last().session_id@,
            s.last().display_name@,
        ) =~= members_map(s.drop_last()).insert(s.last().session_id@, s.last().display_name@)
            .remove(k));
    }
}

/// The mathematical contents of a room list: the nested membership map.
pub open spec fn rooms_map(s: Seq<RoomEntry>) -> Map<Seq<char>, Map<Seq<char>, Seq<char>>>
    decreases s.len(),
{
    if s.len() == 0 {
        Map::empty()
    } else {
        rooms_map(s.drop_last()).insert(s.last().name@, members_map(s.last().members@))
    }
}

/// Whether some entry of a room list carries the given room name.
pub open spec fn has_room(s: Seq<RoomEntry>, r: Seq<char>) -> bool {
    exists|i: int| 0 <= i < s.len() && (#[trigger] s[i]).name@ == r
}

/// No two entries of a room list share a name.
pub open spec fn unique_rooms(s: Seq<RoomEntry>) -> bool {
    forall|i: int, j: int|
        0 <= i < j < s.len() ==> (#[trigger] s[i]).name@ != (#[trigger] s[j]).name@
}

/// The keys of `rooms_map` are exactly the names of the list.
pub proof fn lemma_rooms_map_domain(s: Seq<RoomEntry>)
    ensures
        forall|r: Seq<char>| rooms_map(s).contains_key(r) == has_room(s, r),
        rooms_map(s).dom().finite(),
        rooms_map(s).len() <= s.len(),
    decreases s.len(),
{
    if s.len() == 0 {
    } else {
        lemma_rooms_map_domain(s.drop_last());
        assert forall|r: Seq<char>| rooms_map(s).contains_key(r) == has_room(s, r) by {
            if rooms_map(s).contains_key(r) {
                if r == s.last().name@ {
                    assert((#[trigger] s[s.len() - 1]).name@ == r);
                    assert(has_room(s, r));
                } else {
                    assert(rooms_map(s.drop_last()).contains_key(r));
                    assert(has_room(s.drop_last(), r));
                    let i = choose|i: int|
                        0 <= i < s.drop_last().len() && (#[trigger] s.drop_last()[i]).name@ == r;
                    assert(s.drop_last()[i] == s[i]);
                    assert((#[trigger] s[i]).name@ == r);
                    assert(has_room(s, r));
                }
            }
            if has_room(s, r) {
                let i = choose|i: int| 0 <= i < s.len() && (#[trigger] s[i]).name@ == r;
                if i < s.len() - 1 {
                    assert((#[trigger] s.drop_last()[i]).name@ == r);
                    assert(has_room(s.drop_last(), r));
                } else {
                    assert(r == s.last().name@);
                }
                assert(rooms_map(s).contains_key(r));
            }
        }
    }
}

/// Under uniqueness, each entry of the list is what the map holds at its name.
pub proof fn lemma_rooms_map_index(s: Seq<RoomEntry>, i: int)
    requires
        unique_rooms(s),
        0 <= i < s.len(),
    ensures
        rooms_map(s).contains_key(s[i].name@),
        rooms_map(s)[s[i].name@] == members_map(s[i].members@),
    decreases s.len(),
{
    if i == s.len() - 1 {
    } else {
        assert(unique_rooms(s.drop_last()));
        assert(s.drop_last()[i] == s[i]);
        lemma_rooms_map_index(s.drop_last(), i);
        assert(s[i].name@ != s.last().name@);
    }
}

/// Appending a fresh room inserts its binding.
pub proof fn lemma_rooms_map_push(s: Seq<RoomEntry>, e: RoomEntry)
    ensures
        rooms_map(s.push(e)) == rooms_map(s).insert(e.name@, members_map(e.members@)),
{
    assert(s.push(e).drop_last() =~= s);
    assert(s.push(e).last() == e);
}

/// Overwriting a room in place, keeping its name, updates its binding.
pub proof fn lemma_rooms_map_update(s: Seq<RoomEntry>, i: int, e: RoomEntry)
    requires
        unique_rooms(s),
        0 <= i < s.len(),
        e.name@ == s[i].name@,
    ensures
        rooms_map(s.update(i, e)) == rooms_map(s).insert(e.name@, members_map(e.members@)),
    decreases s.len(),
{
    if i == s.len() - 1 {
        assert(s.update(i, e).drop_last() =~= s.drop_last());
        assert(s.update(i, e).last() == e);
        assert(rooms_map(s.drop_last()).insert(s.last().name@, members_map(s.last().members@))
            .insert(e.name@, members_map(e.members@)) =~= rooms_map(s.drop_last()).insert(
            e.name@,
            members_map(e.members@),
        ));
    } else {
        assert(unique_rooms(s.drop_last()));
        assert(s.drop_last()[i] == s[i]);
        lemma_rooms_map_update(s.drop_last(), i, e);
        assert(s.update(i, e).drop_last() =~= s.drop_last().update(i, e));
        assert(s.update(i, e).last() == s.last());
        assert(s[i].name@ != s.last().name@);
        assert(rooms_map(s.drop_last()).insert(e.name@, members_map(e.members@)).insert(
            s.last().name@,
            members_map(s.last().members@),
        ) =~= rooms_map(s.drop_last()).insert(s.last().name@, members_map(s.last().members@))
            .insert(e.name@, members_map(e.members@)));
    }
}

/// Removing a room removes its binding.
pub proof fn lemma_rooms_map_remove(s: Seq<RoomEntry>, i: int)
    requires
        unique_rooms(s),
        0 <= i < s.len(),
    ensures
        rooms_map(s.remove(i)) == rooms_map(s).remove(s[i].name@),
    decreases s.len(),
{
    let r = s[i].name@;
    if i == s.len() - 1 {
        assert(s.remove(i) =~= s.drop_last());
        lemma_rooms_map_domain(s.drop_last());
        assert(!has_room(s.drop_last(), r)) by {
            if has_room(s.drop_last(), r) {
                let j = choose|j: int|
                    0 <= j < s.drop_last().len() && (#[trigger] s.drop_last()[j]).name@ == r;
                assert(s.drop_last()[j] == s[j]);
                assert(s[j].name@ == s[i].name@);
            }
        }
        assert(rooms_map(s.drop_last()) =~= rooms_map(s.drop_last()).insert(
            r,
            members_map(s.last().members@),
        ).remove(r));
    } else {
        assert(unique_rooms(s.drop_last()));
        assert(s.drop_last()[i] == s[i]);
        lemma_rooms_map_remove(s.drop_last(), i);
        assert(s.remove(i).drop_last() =~= s.drop_last().remove(i));
        assert(s.remove(i).last() == s.last());
        assert(s[i].name@ != s.last().name@);
        assert(rooms_map(s.drop_last()).remove(r).insert(
            s.last().name@,
            members_map(s.last().members@),
        ) =~= rooms_map(s.drop_last()).insert(s.last().name@, members_map(s.last().members@))
            .remove(r));
    }
}

/// What a join event does to the membership map.
///
/// A join by the local session materializes the room when it is absent;
/// after that, the member is inserted or overwritten whenever the room is
/// present.  A join by another session into an unknown room changes
/// nothing.
pub open spec fn spec_apply_join(
    v: Map<Seq<char>, Map<Seq<char>, Seq<char>>>,
    room: Seq<char>,
    session_id: Seq<char>,
    display_name: Seq<char>,
    local: Seq<char>,
) -> Map<Seq<char>, Map<Seq<char>, Seq<char>>> {
    let v1 = if session_id == local && !v.contains_key(room) {
        v.insert(room, Map::empty())
    } else {
        v
    };
    if v1.contains_key(room) {
        v1.insert(room, v1[room].insert(session_id, display_name))
    } else {
        v1
    }
}

/// What a quit event does to the membership map.
///
/// A quit by the local session removes the whole room; a quit by another
/// session removes only that member.
pub open spec fn spec_apply_quit(
    v: Map<Seq<char>, Map<Seq<char>, Seq<char>>>,
    room: Seq<char>,
    session_id: Seq<char>,
    local: Seq<char>,
) -> Map<Seq<char>, Map<Seq<char>, Seq<char>>> {
    if session_id == local {
        v.remove(room)
    } else if v.contains_key(room) {
        v.insert(room, v[room].remove(session_id))
    } else {
        v
    }
}

/// What a rename event does to the membership map: the display name is
/// updated in every room where the session already appears, and nowhere
/// else.
pub open spec fn spec_apply_rename(
    v: Map<Seq<char>, Map<Seq<char>, Seq<char>>>,
    session_id: Seq<char>,
    new_name: Seq<char>,
) -> Map<Seq<char>, Map<Seq<char>, Seq<char>>> {
    Map::new(
        |r: Seq<char>| v.contains_key(r),
        |r: Seq<char>|
            if v[r].contains_key(session_id) {
                v[r].insert(session_id, new_name)
            } else {
                v[r]
            },
    )
}

impl RoomEntry {
    /// Inserts the member, or overwrites its display name if the session
    /// id is already present.
    pub fn upsert_member(&mut self, session_id: &str, display_name: &str)
        requires
            unique_members(old(self).members@),
        ensures
            final(self).name == old(self).name,
            unique_members(final(self).members@),
            members_map(final(self).members@) == members_map(old(self).members@).insert(
                session_id@,
                display_name@,
            ),
            members_named(old(self).members@) && display_name@.len() > 0 ==> members_named(
                final(self).members@,
            ),
    {
        let n = self.members.len();
        let mut j: usize = 0;
        while j < n
            invariant
                *self == *old(self),
                unique_members(self.members@),
                n == self.members@.len(),
                j <= n,
                forall|t: int| 0 <= t < j ==> (#[trigger] self.members@[t]).session_id@
                    != session_id@,
            decreases n - j,
        {
            if crate::text::str_eq(self.members[j].session_id.as_str(), session_id) {
                let entry = MemberEntry {
                    session_id: session_id.to_owned(),
                    display_name: display_name.to_owned(),
                };
                proof {
                    lemma_members_map_update(self.members@, j as int, entry);
                }
                self.members[j] = entry;
                return ;
            }
            j = j + 1;
        }
        let entry = MemberEntry {
            session_id: session_id.to_owned(),
            display_name: display_name.to_owned(),
        };
        proof {
            lemma_members_map_push(self.members@, entry);
        }
        self.members.push(entry);
    }

    /// Removes the member with the given session id, if present.
    pub fn remove_member(&mut self, session_id: &str)
        requires
            unique_members(old(self).members@),
        ensures
            final(self).name == old(self).name,
            unique_members(final(self).members@),
            members_map(final(self).members@) == members_map(old(self).members@).remove(
                session_id@,
            ),
            members_named(old(self).members@) ==> members_named(final(self).members@),
    {
        let n = self.members.len();
        let mut j: usize = 0;
        while j < n
            invariant
                *self == *old(self),
                unique_members(self.members@),
                n == self.members@.len(),
                j <= n,
                forall|t: int| 0 <= t < j ==> (#[trigger] self.members@[t]).session_id@
                    != session_id@,
            decreases n - j,
        {
            if crate::text::str_eq(self.members[j].session_id.as_str(), session_id) {
                proof {
                    lemma_members_map_remove(self.members@, j as int);
                }
                self.members.remove(j);
                proof {
                    let s_old = old(self).members@;
                    let s_new = self.members@;
                    assert forall|a: int, b: int| 0 <= a < b < s_new.len() implies (
                    #[trigger] s_new[a]).session_id@ != (#[trigger] s_new[b]).session_id@ by {
                        if a < j {
                            assert(s_new[a] == s_old[a]);
                        } else {
                            assert(s_new[a] == s_old[a + 1]);
                        }
                        if b < j {
                            assert(s_new[b] == s_old[b]);
                        } else {
                            assert(s_new[b] == s_old[b + 1]);
                        }
                    }
                    assert forall|t: int|
                        members_named(s_old) && 0 <= t < s_new.len() implies (
                    #[trigger] s_new[t]).display_name@.len() > 0 by {
                        if t < j {
                            assert(s_new[t] == s_old[t]);
                        } else {
                            assert(s_new[t] == s_old[t + 1]);
                        }
                    }
                }
                return ;
            }
            j = j + 1;
        }
        proof {
            lemma_members_map_domain(self.members@);
            assert(!has_member(self.members@, session_id@)) by {
                if has_member(self.members@, session_id@) {
                    let t = choose|t: int|
                        0 <= t < self.members@.len() && (#[trigger] self.members@[t]).session_id@
                            == session_id@;
                }
            }
            assert(members_map(self.members@) =~= members_map(self.members@).remove(session_id@));
        }
    }
}

/// The membership map after a whole sequence of join events for one
/// session into one room, applied oldest first.
pub open spec fn spec_apply_joins(
    v: Map<Seq<char>, Map<Seq<char>, Seq<char>>>,
    room: Seq<char>,
    session_id: Seq<char>,
    names: Seq<Seq<char>>,
    local: Seq<char>,
) -> Map<Seq<char>, Map<Seq<char>, Seq<char>>>
    decreases names.len(),
{
    if names.len() == 0 {
        v
    } else {
        spec_apply_join(
            spec_apply_joins(v, room, session_id, names.drop_last(), local),
            room,
            session_id,
            names.last(),
            local,
        )
    }
}

/// However many join events arrive for one session and one room, the final
/// membership of that room binds the session exactly once — a map binds
/// each key to one value — and to the name carried by the most recent
/// join.  The room is present at the end whenever the session is the local
/// one (a self-join materializes the room) or the room already existed.
pub proof fn lemma_join_sequence(
    v: Map<Seq<char>, Map<Seq<char>, Seq<char>>>,
    room: Seq<char>,
    session_id: Seq<char>,
    names: Seq<Seq<char>>,
    local: Seq<char>,
)
    requires
        names.len() > 0,
        session_id == local || v.contains_key(room),
    ensures
        spec_apply_joins(v, room, session_id, names, local).contains_key(room),
        spec_apply_joins(v, room, session_id, names, local)[room].contains_key(session_id),
        spec_apply_joins(v, room, session_id, names, local)[room][session_id] == names.last(),
    decreases names.len(),
{
    if names.len() == 1 {
        assert(spec_apply_joins(v, room, session_id, names.drop_last(), local) == v);
    } else {
        lemma_join_sequence(v, room, session_id, names.drop_last(), local);
    }
}

impl RoomEntry {
    /// Updates the display name of the member with the given session id,
    /// if that member is present; absent members are not created.
    pub fn rename_member(&mut self, session_id: &str, new_name: &str)
        requires
            unique_members(old(self).members@),
        ensures
            final(self).name == old(self).name,
            unique_members(final(self).members@),
            members_map(final(self).members@) == (if members_map(
                old(self).members@,
            ).contains_key(session_id@) {
                members_map(old(self).members@).insert(session_id@, new_name@)
            } else {
                members_map(old(self).members@)
            }),
            members_named(old(self).members@) && new_name@.len() > 0 ==> members_named(
                final(self).members@,
            ),
    {
        let n = self.members.len();
        let mut j: usize = 0;
        while j < n
            invariant
                *self == *old(self),
                unique_members(self.members@),
                n == self.members@.len(),
                j <= n,
                forall|t: int| 0 <= t < j ==> (#[trigger] self.members@[t]).session_id@
                    != session_id@,
            decreases n - j,
        {
            if crate::text::str_eq(self.members[j].session_id.as_str(), session_id) {
                let entry = MemberEntry {
                    session_id: session_id.to_owned(),
                    display_name: new_name.to_owned(),
                };
                proof {
                    lemma_members_map_index(self.members@, j as int);
                    lemma_members_map_update(self.members@, j as int, entry);
                }
                self.members[j] = entry;
                return ;
            }
            j = j + 1;
        }
        proof {
            lemma_members_map_domain(self.members@);
            if has_member(self.members@, session_id@) {
                let t = choose|t: int|
                    0 <= t < self.members@.len() && (#[trigger] self.members@[t]).session_id@
                        == session_id@;
            }
        }
    }
}

/// Member lists whose entries agree pointwise by view have the same map
/// and the same uniqueness.
pub proof fn lemma_members_map_congruence(s1: Seq<MemberEntry>, s2: Seq<MemberEntry>)
    requires
        s1.len() == s2.len(),
        forall|t: int| 0 <= t < s1.len() ==> (#[trigger] s2[t]).session_id@ == s1[t].session_id@
            && s2[t].display_name@ == s1[t].display_name@,
    ensures
        members_map(s2) == members_map(s1),
        unique_members(s1) ==> unique_members(s2),
    decreases s1.len(),
{
    if s1.len() == 0 {
        assert(members_map(s2) =~= members_map(s1));
    } else {
        assert forall|t: int| 0 <= t < s1.drop_last().len() implies (
        #[trigger] s2.drop_last()[t]).session_id@ == s1.drop_last()[t].session_id@
            && s2.drop_last()[t].display_name@ == s1.drop_last()[t].display_name@ by {
            assert(s2.drop_last()[t] == s2[t]);
            assert(s1.drop_last()[t] == s1[t]);
        }
        lemma_members_map_congruence(s1.drop_last(), s2.drop_last());
        assert(s2[s1.len() - 1].session_id@ == s1.last().session_id@);
        assert(members_map(s2) =~= members_map(s1));
        if unique_members(s1) {
            assert forall|a: int, b: int| 0 <= a < b < s2.len() implies (
            #[trigger] s2[a]).session_id@ != (#[trigger] s2[b]).session_id@ by {
                assert(s1[a].session_id@ != s1[b].session_id@);
            }
        }
    }
}

/// Room lists whose entries agree by name, with the members of the second
/// obtained from those of the first by one map-level transformation, have
/// maps related pointwise by that transformation.
pub proof fn lemma_rooms_map_pointwise(
    s1: Seq<RoomEntry>,
    s2: Seq<RoomEntry>,
    f: spec_fn(Map<Seq<char>, Seq<char>>) -> Map<Seq<char>, Seq<char>>,
)
    requires
        s1.len() == s2.len(),
        forall|t: int| 0 <= t < s1.len() ==> (#[trigger] s2[t]).name@ == s1[t].name@,
        forall|t: int| 0 <= t < s1.len() ==> members_map((#[trigger] s2[t]).members@) == f(
            members_map(s1[t].members@),
        ),
    ensures
        rooms_map(s2) == Map::new(
            |r: Seq<char>| rooms_map(s1).contains_key(r),
            |r: Seq<char>| f(rooms_map(s1)[r]),
        ),
    decreases s1.len(),
{
    let goal = Map::new(
        |r: Seq<char>| rooms_map(s1).contains_key(r),
        |r: Seq<char>| f(rooms_map(s1)[r]),
    );
    if s1.len() == 0 {
        assert(rooms_map(s2) =~= goal);
    } else {
        assert(forall|t: int| 0 <= t < s1.drop_last().len() ==> (
        #[trigger] s2.drop_last()[t]).name@ == s1.drop_last()[t].name@);
        assert forall|t: int| 0 <= t < s1.drop_last().len() implies members_map(
            (#[trigger] s2.drop_last()[t]).members@,
        ) == f(members_map(s1.drop_last()[t].members@)) by {
            assert(s2.drop_last()[t] == s2[t]);
            assert(s1.drop_last()[t] == s1[t]);
        }
        lemma_rooms_map_pointwise(s1.drop_last(), s2.drop_last(), f);
        assert(s2[s1.len() - 1].name@ == s1.last().name@);
        assert(members_map(s2.last().members@) == f(members_map(s1.last().members@)));
        assert(rooms_map(s2) =~= goal);
    }
}

/// The registry of rooms the client can currently see.
pub struct RoomRegistry {
    rooms: Vec<RoomEntry>,
}

impl View for RoomRegistry {
    type V = Map<Seq<char>, Map<Seq<char>, Seq<char>>>;

    closed spec fn view(&self) -> Map<Seq<char>, Map<Seq<char>, Seq<char>>> {
        rooms_map(self.rooms@)
    }
}

impl RoomRegistry {
    /// Room names and member session ids are unique, so the association
    /// lists carry exactly their maps.
    pub closed spec fn inv(&self) -> bool {
        &&& unique_rooms(self.rooms@)
        &&& forall|i: int| 0 <= i < self.rooms@.len() ==> unique_members(
            (#[trigger] self.rooms@[i]).members@,
        )
    }

    /// Every member of every room has a non-empty display name.
    pub closed spec fn named(&self) -> bool {
        forall|i: int| 0 <= i < self.rooms@.len() ==> members_named(
            (#[trigger] self.rooms@[i]).members@,
        )
    }

    /// An empty registry.
    pub fn new() -> (r: RoomRegistry)
        ensures
            r@ == Map::<Seq<char>, Map<Seq<char>, Seq<char>>>::empty(),
            r.inv(),
            r.named(),
    {
        RoomRegistry { rooms: Vec::new() }
    }

    /// The index of the room with the given name.
    fn find_room(&self, room: &str) -> (r: Option<usize>)
        ensures
            match r {
                Some(i) => i < self.rooms@.len() && self.rooms@[i as int].name@ == room@,
                None => !has_room(self.rooms@, room@),
            },
    {
        let n = self.rooms.len();
        let mut i: usize = 0;
        while i < n
            invariant
                n == self.rooms@.len(),
                i <= n,
                forall|t: int| 0 <= t < i ==> (#[trigger] self.rooms@[t]).name@ != room@,
            decreases n - i,
        {
            if crate::text::str_eq(self.rooms[i].name.as_str(), room) {
                return Some(i);
            }
            i = i + 1;
        }
        proof {
            if has_room(self.rooms@, room@) {
                let t = choose|t: int|
                    0 <= t < self.rooms@.len() && (#[trigger] self.rooms@[t]).name@ == room@;
            }
        }
        None
    }

    /// Whether the registry knows no room at all.
    pub fn is_empty(&self) -> (r: bool)
        ensures
            r == (self@ == Map::<Seq<char>, Map<Seq<char>, Seq<char>>>::empty()),
    {
        if self.rooms.is_empty() {
            proof {
                assert(self@ =~= Map::<Seq<char>, Map<Seq<char>, Seq<char>>>::empty());
            }
            true
        } else {
            proof {
                lemma_rooms_map_domain(self.rooms@);
                assert((#[trigger] self.rooms@[0]).name@ == self.rooms@[0].name@);
                assert(has_room(self.rooms@, self.rooms@[0].name@));
                assert(self@.contains_key(self.rooms@[0].name@));
            }
            false
        }
    }

    /// Whether a room with this name is currently known.
    pub fn contains_room(&self, room: &str) -> (r: bool)
        ensures
            r == self@.contains_key(room@),
    {
        proof {
            lemma_rooms_map_domain(self.rooms@);
        }
        let found = self.find_room(room);
        match found {
            Some(i) => {
                proof {
                    assert((#[trigger] self.rooms@[i as int]).name@ == room@);
                    assert(has_room(self.rooms@, room@));
                    assert(self@ == rooms_map(self.rooms@));
                    assert(rooms_map(self.rooms@).contains_key(room@));
                }
                true
            },
            None => false,
        }
    }

    /// Atomically replaces the whole registry with an authoritative
    /// server listing.
    pub fn apply_snapshot(&mut self, rooms: Vec<RoomEntry>)
        requires
            unique_rooms(rooms@),
            forall|i: int| 0 <= i < rooms@.len() ==> unique_members(
                (#[trigger] rooms@[i]).members@,
            ),
            forall|i: int| 0 <= i < rooms@.len() ==> members_named(
                (#[trigger] rooms@[i]).members@,
            ),
        ensures
            final(self)@ == rooms_map(rooms@),
            final(self).inv(),
            final(self).named(),
    {
        self.rooms = rooms;
    }

    /// Applies a join event: an idempotent insert, where a join by the
    /// local session first materializes the room.
    pub fn apply_join(
        &mut self,
        room: &str,
        session_id: &str,
        display_name: &str,
        local_session_id: &str,
    )
        requires
            old(self).inv(),
            display_name@.len() > 0,
        ensures
            final(self).inv(),
            old(self).named() ==> final(self).named(),
            final(self)@ == spec_apply_join(
                old(self)@,
                room@,
                session_id@,
                display_name@,
                local_session_id@,
            ),
    {
        proof {
            lemma_rooms_map_domain(self.rooms@);
        }
        if crate::text::str_eq(session_id, local_session_id) && self.find_room(room).is_none() {
            let entry = RoomEntry { name: room.to_owned(), members: Vec::new() };
            proof {
                lemma_rooms_map_push(self.rooms@, entry);
                let s = self.rooms@;
                assert forall|a: int, b: int|
                    0 <= a < b < s.push(entry).len() implies (#[trigger] s.push(entry)[a]).name@
                    != (#[trigger] s.push(entry)[b]).name@ by {
                    if b < s.len() {
                        assert(s.push(entry)[a] == s[a]);
                        assert(s.push(entry)[b] == s[b]);
                    } else {
                        assert(s.push(entry)[a] == s[a]);
                        assert(s.push(entry)[b] == entry);
                    }
                }
            }
            self.rooms.push(entry);
        }
        proof {
            lemma_rooms_map_domain(self.rooms@);
        }
        let found = self.find_room(room);
        match found {
            Some(i) => {
                proof {
                    lemma_rooms_map_index(self.rooms@, i as int);
                }
                let ghost before = self.rooms@;
                let entry = &mut self.rooms[i];
                entry.upsert_member(session_id, display_name);
                proof {
                    lemma_rooms_map_update(before, i as int, self.rooms@[i as int]);
                }
            },
            None => {},
        }
    }

    /// The display name under which a session appears in a room, if any.
    pub fn member_name(&self, room: &str, session_id: &str) -> (r: Option<String>)
        requires
            self.inv(),
        ensures
            match r {
                Some(n) => self@.contains_key(room@) && self@[room@].contains_key(session_id@)
                    && n@ == self@[room@][session_id@],
                None => !(self@.contains_key(room@) && self@[room@].contains_key(session_id@)),
            },
    {
        proof {
            lemma_rooms_map_domain(self.rooms@);
        }
        let found = self.find_room(room);
        match found {
            Some(i) => {
                proof {
                    lemma_rooms_map_index(self.rooms@, i as int);
                    lemma_members_map_domain(self.rooms@[i as int].members@);
                }
                let members = &self.rooms[i].members;
                let n = members.len();
                let mut j: usize = 0;
                while j < n
                    invariant
                        unique_members(members@),
                        self@.contains_key(room@),
                        self@[room@] == members_map(members@),
                        n == members@.len(),
                        j <= n,
                        forall|t: int| 0 <= t < j ==> (#[trigger] members@[t]).session_id@
                            != session_id@,
                    decreases n - j,
                {
                    if crate::text::str_eq(members[j].session_id.as_str(), session_id) {
                        proof {
                            lemma_members_map_index(members@, j as int);
                        }
                        return Some(members[j].display_name.clone());
                    }
                    j = j + 1;
                }
                proof {
                    if has_member(members@, session_id@) {
                        let t = choose|t: int|
                            0 <= t < members@.len() && (#[trigger] members@[t]).session_id@
                                == session_id@;
                    }
                }
                None
            },
            None => {
                None
            },
        }
    }

    /// The names of all known rooms, without duplicates.
    pub fn room_names(&self) -> (r: Vec<String>)
        requires
            self.inv(),
        ensures
            forall|i: int| 0 <= i < r@.len() ==> self@.contains_key((#[trigger] r@[i])@),
            forall|room: Seq<char>| self@.contains_key(room) ==> exists|i: int|
                0 <= i < r@.len() && (#[trigger] r@[i])@ == room,
            forall|i: int, j: int| 0 <= i < j < r@.len() ==> (#[trigger] r@[i])@ != (
            #[trigger] r@[j])@,
    {
        proof {
            lemma_rooms_map_domain(self.rooms@);
        }
        let n = self.rooms.len();
        let mut r: Vec<String> = Vec::new();
        let mut i: usize = 0;
        while i < n
            invariant
                self.inv(),
                n == self.rooms@.len(),
                i <= n,
                r@.len() == i,
                forall|t: int| 0 <= t < i ==> (#[trigger] r@[t])@ == self.rooms@[t].name@,
            decreases n - i,
        {
            r.push(self.rooms[i].name.clone());
            i = i + 1;
        }
        proof {
            assert forall|t: int| 0 <= t < r@.len() implies self@.contains_key(
                (#[trigger] r@[t])@,
            ) by {
                assert((#[trigger] self.rooms@[t]).name@ == r@[t]@);
                assert(has_room(self.rooms@, r@[t]@));
            }
            assert forall|room: Seq<char>| self@.contains_key(room) implies exists|t: int|
                0 <= t < r@.len() && (#[trigger] r@[t])@ == room by {
                lemma_rooms_map_domain(self.rooms@);
                assert(has_room(self.rooms@, room));
                let u = choose|u: int|
                    0 <= u < self.rooms@.len() && (#[trigger] self.rooms@[u]).name@ == room;
                assert((#[trigger] r@[u])@ == room);
            }
        }
        r
    }

    /// A copy of a room's member list; an unknown room yields an empty
    /// list.
    pub fn members_of(&self, room: &str) -> (r: Vec<MemberEntry>)
        requires
            self.inv(),
        ensures
            unique_members(r@),
            self@.contains_key(room@) ==> members_map(r@) == self@[room@],
            !self@.contains_key(room@) ==> r@.len() == 0,
    {
        proof {
            lemma_rooms_map_domain(self.rooms@);
        }
        let found = self.find_room(room);
        match found {
            Some(i) => {
                proof {
                    lemma_rooms_map_index(self.rooms@, i as int);
                    assert((#[trigger] self.rooms@[i as int]).name@ == room@);
                }
                let members = &self.rooms[i].members;
                let n = members.len();
                let mut r: Vec<MemberEntry> = Vec::new();
                let mut j: usize = 0;
                while j < n
                    invariant
                        n == members@.len(),
                        j <= n,
                        r@.len() == j,
                        forall|t: int| 0 <= t < j ==> (#[trigger] r@[t]).session_id@
                            == members@[t].session_id@ && r@[t].display_name@
                            == members@[t].display_name@,
                    decreases n - j,
                {
                    r.push(
                        MemberEntry {
                            session_id: members[j].session_id.clone(),
                            display_name: members[j].display_name.clone(),
                        },
                    );
                    j = j + 1;
                }
                proof {
                    lemma_members_map_congruence(members@, r@);
                }
                r
            },
            None => {
                Vec::new()
            },
        }
    }

    /// Applies a rename event: the session's display name is updated in
    /// every room where the session currently appears; no entry is
    /// created anywhere.
    pub fn apply_rename(&mut self, session_id: &str, new_name: &str)
        requires
            old(self).inv(),
            new_name@.len() > 0,
        ensures
            final(self).inv(),
            old(self).named() ==> final(self).named(),
            final(self)@ == spec_apply_rename(old(self)@, session_id@, new_name@),
            final(self)@.dom() == old(self)@.dom(),
            forall|r: Seq<char>|
                old(self)@.contains_key(r) ==> (#[trigger] final(self)@[r]).dom()
                    == old(self)@[r].dom(),
            forall|r: Seq<char>|
                old(self)@.contains_key(r) && old(self)@[r].contains_key(session_id@) ==> (
                #[trigger] final(self)@[r])[session_id@] == new_name@,
            forall|r: Seq<char>, m: Seq<char>|
                old(self)@.contains_key(r) && old(self)@[r].contains_key(m) && m != session_id@
                    ==> (#[trigger] final(self)@[r][m]) == old(self)@[r][m],
    {
        let ghost s_old = self.rooms@;
        let ghost f = |mm: Map<Seq<char>, Seq<char>>|
            if mm.contains_key(session_id@) {
                mm.insert(session_id@, new_name@)
            } else {
                mm
            };
        let n = self.rooms.len();
        let mut i: usize = 0;
        while i < n
            invariant
                n == self.rooms@.len(),
                s_old.len() == n,
                i <= n,
                forall|t: int| 0 <= t < n ==> (#[trigger] self.rooms@[t]).name@ == s_old[t].name@,
                forall|t: int| i <= t < n ==> (#[trigger] self.rooms@[t]) == s_old[t],
                forall|t: int| 0 <= t < i ==> members_map((#[trigger] self.rooms@[t]).members@)
                    == f(members_map(s_old[t].members@)),
                forall|t: int| 0 <= t < n ==> unique_members(
                    (#[trigger] self.rooms@[t]).members@,
                ),
                forall|t: int|
                    0 <= t < n && members_named(s_old[t].members@) ==> members_named(
                        (#[trigger] self.rooms@[t]).members@,
                    ),
                new_name@.len() > 0,
                f == (|mm: Map<Seq<char>, Seq<char>>|
                    if mm.contains_key(session_id@) {
                        mm.insert(session_id@, new_name@)
                    } else {
                        mm
                    }),
            decreases n - i,
        {
            let ghost before = self.rooms@;
            let entry = &mut self.rooms[i];
            entry.rename_member(session_id, new_name);
            proof {
                assert(before[i as int] == s_old[i as int]);
                assert(members_map(self.rooms@[i as int].members@) == f(
                    members_map(s_old[i as int].members@),
                ));
            }
            i = i + 1;
        }
        proof {
            lemma_rooms_map_pointwise(s_old, self.rooms@, f);
            assert(unique_rooms(self.rooms@)) by {
                assert forall|a: int, b: int|
                    0 <= a < b < self.rooms@.len() implies (#[trigger] self.rooms@[a]).name@ != (
                #[trigger] self.rooms@[b]).name@ by {
                    assert(s_old[a].name@ != s_old[b].name@);
                }
            }
            let v_old = rooms_map(s_old);
            let v_new = rooms_map(self.rooms@);
            assert(v_new =~= spec_apply_rename(v_old, session_id@, new_name@));
            assert(v_new.dom() =~= v_old.dom());
            assert forall|r: Seq<char>| v_old.contains_key(r) implies (#[trigger] v_new[r]).dom()
                == v_old[r].dom() by {
                if v_old[r].contains_key(session_id@) {
                    assert(v_new[r].dom() =~= v_old[r].dom());
                } else {
                    assert(v_new[r].dom() =~= v_old[r].dom());
                }
            }
        }
    }

    /// Applies a quit event: a self-quit removes the whole room, any
    /// other quit removes just that member.
    pub fn apply_quit(&mut self, room: &str, session_id: &str, local_session_id: &str)
        requires
            old(self).inv(),
        ensures
            final(self).inv(),
            old(self).named() ==> final(self).named(),
            final(self)@ == spec_apply_quit(old(self)@, room@, session_id@, local_session_id@),
            session_id@ == local_session_id@ ==> !final(self)@.contains_key(room@),
            session_id@ != local_session_id@ && old(self)@.contains_key(room@)
                ==> final(self)@.contains_key(room@)
                    && final(self)@[room@] == old(self)@[room@].remove(session_id@),
    {
        proof {
            lemma_rooms_map_domain(self.rooms@);
        }
        let found = self.find_room(room);
        if crate::text::str_eq(session_id, local_session_id) {
            match found {
                Some(i) => {
                    proof {
                        lemma_rooms_map_remove(self.rooms@, i as int);
                    }
                    let ghost s_old = self.rooms@;
                    let ghost j = i as int;
                    self.rooms.remove(i);
                    proof {
                        let s_new = self.rooms@;
                        assert forall|a: int, b: int| 0 <= a < b < s_new.len() implies (
                        #[trigger] s_new[a]).name@ != (#[trigger] s_new[b]).name@ by {
                            if a < j {
                                assert(s_new[a] == s_old[a]);
                            } else {
                                assert(s_new[a] == s_old[a + 1]);
                            }
                            if b < j {
                                assert(s_new[b] == s_old[b]);
                            } else {
                                assert(s_new[b] == s_old[b + 1]);
                            }
                        }
                        assert forall|t: int| 0 <= t < s_new.len() implies unique_members(
                            (#[trigger] s_new[t]).members@,
                        ) && (old(self).named() ==> members_named(s_new[t].members@)) by {
                            if t < j {
                                assert(s_new[t] == s_old[t]);
                            } else {
                                assert(s_new[t] == s_old[t + 1]);
                            }
                        }
                    }
                },
                None => {
                    proof {
                        assert(rooms_map(self.rooms@) =~= rooms_map(self.rooms@).remove(room@));
                    }
                },
            }
        } else {
            match found {
                Some(i) => {
                    proof {
                        lemma_rooms_map_index(self.rooms@, i as int);
                    }
                    let ghost before = self.rooms@;
                    let entry = &mut self.rooms[i];
                    entry.remove_member(session_id);
                    proof {
                        lemma_rooms_map_update(before, i as int, self.rooms@[i as int]);
                    }
                },
                None => {},
            }
        }
    }
}

} // verus!
