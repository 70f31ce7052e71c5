//! The room registry: which participants are currently connected to which
//! document, and each participant's outbound queue of edit events.
//!
//! A room is keyed by the id of the file being edited and is created lazily
//! on first join; it is never deleted when it empties.  Joining under a name
//! already present silently replaces the old entry, which is thereby
//! orphaned from future broadcasts.  A broadcast enqueues the event for
//! every participant of the room except the sender, in send order per
//! recipient.

use vstd::prelude::*;

verus! {

/// One connected participant: the name it joined under, and the outbound
/// queue its relay loop drains towards the transport.
pub struct UserState {
    pub username: String,
    pub pending: Vec<String>,
}

#[verifier::ext_equal]
pub struct UserView {
    pub username: Seq<char>,
    pub pending: Seq<Seq<char>>,
}

impl View for UserState {
    type V = UserView;

    open spec fn view(&self) -> UserView {
        UserView {
            username: self.username@,
            pending: self.pending@.map_values(|m: String| m@),
        }
    }
}

/// The participants currently editing one file.
pub struct Room {
    pub users: Vec<UserState>,
}

impl View for Room {
    type V = Seq<UserView>;

    open spec fn view(&self) -> Seq<UserView> {
        self.users@.map_values(|u: UserState| u@)
    }
}

/// One registry entry: the room serving one file id.
pub struct RoomEntry {
    pub file_id: i32,
    pub room: Room,
}

#[verifier::ext_equal]
pub struct EntryView {
    pub file_id: int,
    pub users: Seq<UserView>,
}

impl View for RoomEntry {
    type V = EntryView;

    open spec fn view(&self) -> EntryView {
        EntryView { file_id: self.file_id as int, users: self.room@ }
    }
}

/// The registry of all rooms, keyed by file id.
pub struct RoomManager {
    rooms: Vec<RoomEntry>,
}

impl View for RoomManager {
    type V = Seq<EntryView>;

    closed spec fn view(&self) -> Seq<EntryView> {
        self.rooms@.map_values(|e: RoomEntry| e@)
    }
}

/// Some entry of the registry serves file id `fid`.
pub open spec fn has_room(v: Seq<EntryView>, fid: int) -> bool {
    exists|i: int| 0 <= i < v.len() && v[i].file_id == fid
}

/// The participants of the room serving `fid` (meaningful when `has_room`
/// holds and room ids are unique).
pub open spec fn room_at(v: Seq<EntryView>, fid: int) -> Seq<UserView> {
    v[choose|i: int| 0 <= i < v.len() && v[i].file_id == fid].users
}

/// Some participant of `u` joined under `name`.
pub open spec fn is_member(u: Seq<UserView>, name: Seq<char>) -> bool {
    exists|i: int| 0 <= i < u.len() && u[i].username == name
}

/// The set of names currently present.
pub open spec fn member_names(u: Seq<UserView>) -> Set<Seq<char>> {
    Set::new(|n: Seq<char>| is_member(u, n))
}

/// The outbound queue of the participant joined under `name` (meaningful
/// when `is_member` holds and names are unique).
pub open spec fn queue_of(u: Seq<UserView>, name: Seq<char>) -> Seq<Seq<char>> {
    u[choose|i: int| 0 <= i < u.len() && u[i].username == name].pending
}

/// No two entries serve the same file id.
pub open spec fn unique_room_ids(v: Seq<EntryView>) -> bool {
    forall|i: int, j: int|
        0 <= i < v.len() && 0 <= j < v.len() && #[trigger] v[i].file_id == #[trigger] v[j].file_id
            ==> i == j
}

/// No two participants of one room share a name.
pub open spec fn unique_usernames(u: Seq<UserView>) -> bool {
    forall|i: int, j: int|
        0 <= i < u.len() && 0 <= j < u.len() && #[trigger] u[i].username
            == #[trigger] u[j].username ==> i == j
}

/// Well-formedness of the registry: room keys unique, names unique per room.
pub open spec fn reg_wf(v: Seq<EntryView>) -> bool {
    &&& unique_room_ids(v)
    &&& forall|i: int| 0 <= i < v.len() ==> unique_usernames(#[trigger] v[i].users)
}

/// How one room's participants change under a join: a fresh entry for
/// `name` — with an empty queue — replaces the old one in place where the
/// name is already present, and is appended where it is not.  Nobody else's
/// entry or queue moves.
pub open spec fn user_joined(u0: Seq<UserView>, u1: Seq<UserView>, name: Seq<char>) -> bool {
    if is_member(u0, name) {
        u1.len() == u0.len() && forall|j: int|
            0 <= j < u0.len() ==> #[trigger] u1[j] == (if u0[j].username == name {
                UserView { username: name, pending: Seq::empty() }
            } else {
                u0[j]
            })
    } else {
        u1 == u0.push(UserView { username: name, pending: Seq::empty() })
    }
}

/// How the registry changes under a join: the room for `fid` is created
/// with the one new participant where absent, and otherwise updated by
/// `user_joined`; every other room stands untouched.
pub open spec fn join_spec(
    v0: Seq<EntryView>,
    v1: Seq<EntryView>,
    fid: int,
    name: Seq<char>,
) -> bool {
    if has_room(v0, fid) {
        &&& v1.len() == v0.len()
        &&& forall|i: int| 0 <= i < v0.len() ==> #[trigger] v1[i].file_id == v0[i].file_id
        &&& forall|i: int|
            0 <= i < v0.len() && v0[i].file_id != fid ==> #[trigger] v1[i].users == v0[i].users
        &&& forall|i: int|
            0 <= i < v0.len() && v0[i].file_id == fid ==> user_joined(
                v0[i].users,
                (#[trigger] v1[i]).users,
                name,
            )
    } else {
        v1 == v0.push(
            EntryView {
                file_id: fid,
                users: seq![UserView { username: name, pending: Seq::empty() }],
            },
        )
    }
}

/// How one room's participants change under a leave: the entry joined
/// under `name` is removed where present; everyone else keeps place order,
/// membership and queue.
pub open spec fn user_left(u0: Seq<UserView>, u1: Seq<UserView>, name: Seq<char>) -> bool {
    if is_member(u0, name) {
        exists|j: int|
            0 <= j < u0.len() && #[trigger] u0[j].username == name && u1 == u0.remove(j)
    } else {
        u1 == u0
    }
}

/// How the registry changes under a leave: the room for `fid` — if it
/// exists — loses the entry for `name`; the room itself stays even when it
/// empties, and every other room stands untouched.
pub open spec fn leave_spec(
    v0: Seq<EntryView>,
    v1: Seq<EntryView>,
    fid: int,
    name: Seq<char>,
) -> bool {
    if has_room(v0, fid) {
        &&& v1.len() == v0.len()
        &&& forall|i: int| 0 <= i < v0.len() ==> #[trigger] v1[i].file_id == v0[i].file_id
        &&& forall|i: int|
            0 <= i < v0.len() && v0[i].file_id != fid ==> #[trigger] v1[i].users == v0[i].users
        &&& forall|i: int|
            0 <= i < v0.len() && v0[i].file_id == fid ==> user_left(
                v0[i].users,
                (#[trigger] v1[i]).users,
                name,
            )
    } else {
        v1 == v0
    }
}

/// What `user_left` does to the derived notions: names lose exactly
/// `name`, everyone else keeps both membership and queue.
pub proof fn lemma_user_left_props(u0: Seq<UserView>, u1: Seq<UserView>, name: Seq<char>)
    requires
        user_left(u0, u1, name),
        unique_usernames(u0),
    ensures
        unique_usernames(u1),
        !is_member(u1, name),
        member_names(u1) == member_names(u0).remove(name),
        is_member(u0, name) ==> u1.len() == u0.len() - 1,
        !is_member(u0, name) ==> u1 == u0,
        forall|n: Seq<char>|
            n != name && #[trigger] is_member(u0, n) ==> is_member(u1, n) && queue_of(u1, n)
                == queue_of(u0, n),
        forall|n: Seq<char>| #[trigger] is_member(u1, n) ==> is_member(u0, n) && n != name,
{
    if is_member(u0, name) {
        let j = choose|j: int|
            0 <= j < u0.len() && #[trigger] u0[j].username == name && u1 == u0.remove(j);
        assert(u1 == u0.remove(j));
        assert forall|k: int| 0 <= k < u1.len() implies #[trigger] u1[k] == (if k < j {
            u0[k]
        } else {
            u0[k + 1]
        }) by {}
        assert forall|k1: int, k2: int|
            0 <= k1 < u1.len() && 0 <= k2 < u1.len() && #[trigger] u1[k1].username
                == #[trigger] u1[k2].username implies k1 == k2 by {
            let m1: int = if k1 < j { k1 } else { k1 + 1 };
            let m2: int = if k2 < j { k2 } else { k2 + 1 };
            assert(u0[m1].username == u0[m2].username);
        };
        assert forall|n: Seq<char>| #[trigger] is_member(u1, n) implies is_member(u0, n) && n
            != name by {
            let k = choose|k: int| 0 <= k < u1.len() && u1[k].username == n;
            let m: int = if k < j { k } else { k + 1 };
            assert(u0[m].username == n);
            assert(is_member(u0, n));
            if n == name {
                assert(u0[m].username == u0[j].username);
                assert(m == j);
                assert(false);
            }
        };
        assert(!is_member(u1, name));
        assert forall|n: Seq<char>|
            n != name && #[trigger] is_member(u0, n) implies is_member(u1, n) && queue_of(u1, n)
            == queue_of(u0, n) by {
            let m = choose|m: int| 0 <= m < u0.len() && u0[m].username == n;
            assert(m != j);
            let k: int = if m < j { m } else { m - 1 };
            assert(u1[k] == u0[m]);
            assert(is_member(u1, n));
            let k1 = choose|k1: int| 0 <= k1 < u1.len() && u1[k1].username == n;
            assert(k1 == k) by {
                let m1: int = if k1 < j { k1 } else { k1 + 1 };
                assert(u0[m1].username == n);
                assert(m1 == m);
            };
            let m0 = choose|m0: int| 0 <= m0 < u0.len() && u0[m0].username == n;
            assert(m0 == m);
        };
        assert(member_names(u1) =~= member_names(u0).remove(name));
    } else {
        assert(u1 == u0);
        assert(!is_member(u1, name));
        assert(member_names(u1) =~= member_names(u0).remove(name));
    }
}

/// How one room's participants change under a broadcast from `sender`:
/// every participant but the sender has `msg` appended to its queue; the
/// sender's queue — and everyone's membership — stands still.  The sender
/// itself need not be present for the others to receive.
pub open spec fn user_broadcast(
    u0: Seq<UserView>,
    u1: Seq<UserView>,
    sender: Seq<char>,
    msg: Seq<char>,
) -> bool {
    u1.len() == u0.len() && forall|j: int|
        0 <= j < u0.len() ==> #[trigger] u1[j] == (if u0[j].username == sender {
            u0[j]
        } else {
            UserView { username: u0[j].username, pending: u0[j].pending.push(msg) }
        })
}

/// How the registry changes under a broadcast into the room for `fid`:
/// that room's queues grow by `user_broadcast`; an absent room, and every
/// other room, stands untouched.
pub open spec fn broadcast_spec(
    v0: Seq<EntryView>,
    v1: Seq<EntryView>,
    fid: int,
    sender: Seq<char>,
    msg: Seq<char>,
) -> bool {
    if has_room(v0, fid) {
        &&& v1.len() == v0.len()
        &&& forall|i: int| 0 <= i < v0.len() ==> #[trigger] v1[i].file_id == v0[i].file_id
        &&& forall|i: int|
            0 <= i < v0.len() && v0[i].file_id != fid ==> #[trigger] v1[i].users == v0[i].users
        &&& forall|i: int|
            0 <= i < v0.len() && v0[i].file_id == fid ==> user_broadcast(
                v0[i].users,
                (#[trigger] v1[i]).users,
                sender,
                msg,
            )
    } else {
        v1 == v0
    }
}

/// What `user_broadcast` does to the derived notions: membership stands
/// still, every member other than the sender receives exactly `msg` at the
/// end of its queue, and the sender receives nothing.
pub proof fn lemma_user_broadcast_props(
    u0: Seq<UserView>,
    u1: Seq<UserView>,
    sender: Seq<char>,
    msg: Seq<char>,
)
    requires
        user_broadcast(u0, u1, sender, msg),
        unique_usernames(u0),
    ensures
        unique_usernames(u1),
        member_names(u1) == member_names(u0),
        forall|n: Seq<char>| #[trigger] is_member(u1, n) == is_member(u0, n),
        forall|n: Seq<char>|
            #[trigger] is_member(u0, n) && n != sender ==> queue_of(u1, n) == queue_of(
                u0,
                n,
            ).push(msg),
        is_member(u0, sender) ==> queue_of(u1, sender) == queue_of(u0, sender),
{
    assert forall|j: int| 0 <= j < u1.len() implies #[trigger] u1[j].username
        == u0[j].username by {}
    assert forall|n: Seq<char>| #[trigger] is_member(u1, n) == is_member(u0, n) by {
        if is_member(u0, n) {
            let j = choose|j: int| 0 <= j < u0.len() && u0[j].username == n;
            assert(u1[j].username == n);
        }
        if is_member(u1, n) {
            let j = choose|j: int| 0 <= j < u1.len() && u1[j].username == n;
            assert(u0[j].username == n);
        }
    };
    assert(member_names(u1) =~= member_names(u0));
    assert forall|n: Seq<char>|
        #[trigger] is_member(u0, n) && n != sender implies queue_of(u1, n) == queue_of(
        u0,
        n,
    ).push(msg) by {
        let j0 = choose|j: int| 0 <= j < u0.len() && u0[j].username == n;
        assert(u1[j0].username == n);
        assert(is_member(u1, n));
        let j1 = choose|j: int| 0 <= j < u1.len() && u1[j].username == n;
        assert(u0[j1].username == n);
        assert(j1 == j0);
        assert(u1[j0] == UserView { username: n, pending: u0[j0].pending.push(msg) });
    };
    if is_member(u0, sender) {
        let j0 = choose|j: int| 0 <= j < u0.len() && u0[j].username == sender;
        assert(u1[j0].username == sender);
        assert(is_member(u1, sender));
        let j1 = choose|j: int| 0 <= j < u1.len() && u1[j].username == sender;
        assert(u0[j1].username == sender);
        assert(j1 == j0);
        assert(u1[j0] == u0[j0]);
    }
}

/// How one room's participants change when one queue is drained: the
/// participant joined under `name` keeps its place with an emptied queue;
/// everyone else stands still.
pub open spec fn user_drained(u0: Seq<UserView>, u1: Seq<UserView>, name: Seq<char>) -> bool {
    if is_member(u0, name) {
        u1.len() == u0.len() && forall|j: int|
            0 <= j < u0.len() ==> #[trigger] u1[j] == (if u0[j].username == name {
                UserView { username: u0[j].username, pending: Seq::empty() }
            } else {
                u0[j]
            })
    } else {
        u1 == u0
    }
}

/// How the registry changes when one queue is drained: only that queue —
/// in the room for `fid` — empties; every other queue, every membership and
/// every other room stands untouched.
pub open spec fn drain_spec(
    v0: Seq<EntryView>,
    v1: Seq<EntryView>,
    fid: int,
    name: Seq<char>,
) -> bool {
    if has_room(v0, fid) {
        &&& v1.len() == v0.len()
        &&& forall|i: int| 0 <= i < v0.len() ==> #[trigger] v1[i].file_id == v0[i].file_id
        &&& forall|i: int|
            0 <= i < v0.len() && v0[i].file_id != fid ==> #[trigger] v1[i].users == v0[i].users
        &&& forall|i: int|
            0 <= i < v0.len() && v0[i].file_id == fid ==> user_drained(
                v0[i].users,
                (#[trigger] v1[i]).users,
                name,
            )
    } else {
        v1 == v0
    }
}

/// What `user_drained` does to the derived notions: membership stands
/// still, the drained queue comes out empty, every other queue is kept.
pub proof fn lemma_user_drained_props(u0: Seq<UserView>, u1: Seq<UserView>, name: Seq<char>)
    requires
        user_drained(u0, u1, name),
        unique_usernames(u0),
    ensures
        unique_usernames(u1),
        member_names(u1) == member_names(u0),
        forall|n: Seq<char>| #[trigger] is_member(u1, n) == is_member(u0, n),
        is_member(u0, name) ==> queue_of(u1, name) == Seq::<Seq<char>>::empty(),
        forall|n: Seq<char>|
            #[trigger] is_member(u0, n) && n != name ==> queue_of(u1, n) == queue_of(u0, n),
{
    if is_member(u0, name) {
        assert forall|j: int| 0 <= j < u1.len() implies #[trigger] u1[j].username
            == u0[j].username by {}
        assert forall|n: Seq<char>| #[trigger] is_member(u1, n) == is_member(u0, n) by {
            if is_member(u0, n) {
                let j = choose|j: int| 0 <= j < u0.len() && u0[j].username == n;
                assert(u1[j].username == n);
            }
            if is_member(u1, n) {
                let j = choose|j: int| 0 <= j < u1.len() && u1[j].username == n;
                assert(u0[j].username == n);
            }
        };
        assert(member_names(u1) =~= member_names(u0));
        let j0 = choose|j: int| 0 <= j < u0.len() && u0[j].username == name;
        assert(u1[j0].username == name);
        let j1 = choose|j: int| 0 <= j < u1.len() && u1[j].username == name;
        assert(u0[j1].username == name);
        assert(j1 == j0);
        assert(queue_of(u1, name) =~= Seq::<Seq<char>>::empty());
        assert forall|n: Seq<char>|
            #[trigger] is_member(u0, n) && n != name implies queue_of(u1, n) == queue_of(
            u0,
            n,
        ) by {
            let k0 = choose|k: int| 0 <= k < u0.len() && u0[k].username == n;
            assert(u1[k0].username == n);
            let k1 = choose|k: int| 0 <= k < u1.len() && u1[k].username == n;
            assert(u0[k1].username == n);
            assert(k1 == k0);
            assert(u1[k0] == u0[k0]);
        };
    } else {
        assert(member_names(u1) =~= member_names(u0));
    }
}

/// What `user_joined` does to the derived notions: names gain exactly
/// `name`, the joiner's queue comes out empty, everyone else keeps both
/// membership and queue.
pub proof fn lemma_user_joined_props(u0: Seq<UserView>, u1: Seq<UserView>, name: Seq<char>)
    requires
        user_joined(u0, u1, name),
        unique_usernames(u0),
    ensures
        unique_usernames(u1),
        is_member(u1, name),
        queue_of(u1, name) == Seq::<Seq<char>>::empty(),
        member_names(u1) == member_names(u0).insert(name),
        is_member(u0, name) ==> u1.len() == u0.len(),
        !is_member(u0, name) ==> u1.len() == u0.len() + 1,
        forall|n: Seq<char>|
            n != name && #[trigger] is_member(u0, n) ==> is_member(u1, n) && queue_of(u1, n)
                == queue_of(u0, n),
        forall|n: Seq<char>| #[trigger] is_member(u1, n) ==> is_member(u0, n) || n == name,
{
    let fresh = UserView { username: name, pending: Seq::empty() };
    if is_member(u0, name) {
        assert forall|j: int, k: int|
            0 <= j < u1.len() && 0 <= k < u1.len() && #[trigger] u1[j].username
                == #[trigger] u1[k].username implies j == k by {
            assert(u1[j].username == u0[j].username);
            assert(u1[k].username == u0[k].username);
        };
        let ji = choose|j: int| 0 <= j < u0.len() && u0[j].username == name;
        assert(u1[ji] == fresh);
        assert(is_member(u1, name));
        let jq = choose|j: int| 0 <= j < u1.len() && u1[j].username == name;
        assert(u1[jq].username == u0[jq].username);
        assert(jq == ji);
        assert(queue_of(u1, name) =~= Seq::<Seq<char>>::empty());
        assert forall|n: Seq<char>|
            n != name && #[trigger] is_member(u0, n) implies is_member(u1, n) && queue_of(u1, n)
            == queue_of(u0, n) by {
            let j = choose|j: int| 0 <= j < u0.len() && u0[j].username == n;
            assert(u1[j] == u0[j]);
            assert(is_member(u1, n));
            let k1 = choose|k: int| 0 <= k < u1.len() && u1[k].username == n;
            assert(u1[k1].username == u0[k1].username);
            let k0 = choose|k: int| 0 <= k < u0.len() && u0[k].username == n;
            assert(k0 == j && k1 == j);
            assert(u1[k1] == u0[k0]);
        };
        assert forall|n: Seq<char>| #[trigger] is_member(u1, n) implies is_member(u0, n) || n
            == name by {
            let j = choose|j: int| 0 <= j < u1.len() && u1[j].username == n;
            if u0[j].username == name {
                assert(u1[j] == fresh);
            } else {
                assert(u1[j] == u0[j]);
            }
        };
        assert(member_names(u1) =~= member_names(u0).insert(name));
    } else {
        assert(u1 == u0.push(fresh));
        assert forall|j: int, k: int|
            0 <= j < u1.len() && 0 <= k < u1.len() && #[trigger] u1[j].username
                == #[trigger] u1[k].username implies j == k by {
            if j < u0.len() && k < u0.len() {
            } else if j == u0.len() && k < u0.len() {
                assert(u0[k].username == name);
                assert(is_member(u0, name));
            } else if k == u0.len() && j < u0.len() {
                assert(u0[j].username == name);
                assert(is_member(u0, name));
            }
        };
        assert(u1[u0.len() as int] == fresh);
        assert(is_member(u1, name));
        let jq = choose|j: int| 0 <= j < u1.len() && u1[j].username == name;
        assert(jq == u0.len() as int);
        assert(queue_of(u1, name) =~= Seq::<Seq<char>>::empty());
        assert forall|n: Seq<char>|
            n != name && #[trigger] is_member(u0, n) implies is_member(u1, n) && queue_of(u1, n)
            == queue_of(u0, n) by {
            let j = choose|j: int| 0 <= j < u0.len() && u0[j].username == n;
            assert(u1[j] == u0[j]);
            assert(is_member(u1, n));
            let k1 = choose|k: int| 0 <= k < u1.len() && u1[k].username == n;
            let k0 = choose|k: int| 0 <= k < u0.len() && u0[k].username == n;
            assert(k0 == j);
            assert(k1 != u0.len() as int);
            assert(u1[k1] == u0[k1]);
            assert(k1 == j);
        };
        assert forall|n: Seq<char>| #[trigger] is_member(u1, n) implies is_member(u0, n) || n
            == name by {
            let j = choose|j: int| 0 <= j < u1.len() && u1[j].username == n;
            if j < u0.len() {
                assert(u1[j] == u0[j]);
            }
        };
        assert(member_names(u1) =~= member_names(u0).insert(name));
    }
}

impl RoomManager {
    /// Validity carried by every registry this module hands out.
    pub open spec fn wf(&self) -> bool {
        reg_wf(self@)
    }

    /// An empty registry: no rooms at all.
    pub fn new() -> (r: Self)
        ensures
            r.wf(),
            r@ == Seq::<EntryView>::empty(),
            forall|fid: int| !has_room(r@, fid),
    {
        let r = RoomManager { rooms: Vec::new() };
        proof {
            assert(r@ =~= Seq::<EntryView>::empty());
        }
        r
    }

    /// The index of the entry serving `file_id`, if one exists.
    fn find_room_idx(&self, file_id: i32) -> (r: Option<usize>)
        ensures
            match r {
                Some(i) => i < self@.len() && self@[i as int].file_id == file_id as int,
                None => !has_room(self@, file_id as int),
            },
    {
        let mut i: usize = 0;
        while i < self.rooms.len()
            invariant
                i <= self.rooms@.len(),
                self@.len() == self.rooms@.len(),
                forall|j: int| 0 <= j < i ==> #[trigger] self@[j].file_id != file_id as int,
            decreases self.rooms@.len() - i,
        {
            if self.rooms[i].file_id == file_id {
                return Some(i);
            }
            i = i + 1;
        }
        None
    }

    /// The index of the participant joined under `name` inside the room at
    /// entry index `ri`, if present.
    fn find_user_idx(&self, ri: usize, name: &String) -> (r: Option<usize>)
        requires
            ri < self@.len(),
        ensures
            match r {
                Some(u) => u < self@[ri as int].users.len() && self@[ri as int].users[u as int].username
                    == name@,
                None => !is_member(self@[ri as int].users, name@),
            },
    {
        let mut u: usize = 0;
        while u < self.rooms[ri].room.users.len()
            invariant
                ri < self.rooms@.len(),
                self@.len() == self.rooms@.len(),
                u <= self.rooms@[ri as int].room.users@.len(),
                self@[ri as int].users.len() == self.rooms@[ri as int].room.users@.len(),
                forall|j: int|
                    0 <= j < u ==> #[trigger] self@[ri as int].users[j].username != name@,
            decreases self.rooms@[ri as int].room.users@.len() - u,
        {
            if self.rooms[ri].room.users[u].username.eq(name) {
                proof {
                    assert(self@[ri as int].users[u as int] == self.rooms@[ri as int].room.users@[
                        u as int
                    ]@);
                }
                return Some(u);
            }
            u = u + 1;
        }
        None
    }

    /// Join the room for `file_id` under `username`, creating the room if
    /// it is absent.  A participant already joined under the same name is
    /// silently replaced — its old entry stops receiving broadcasts — and
    /// the joiner always starts with an empty queue.  No other room and no
    /// other participant moves.
    pub fn join(&mut self, file_id: i32, username: String)
        requires
            old(self).wf(),
        ensures
            final(self).wf(),
            join_spec(old(self)@, final(self)@, file_id as int, username@),
            has_room(final(self)@, file_id as int),
            is_member(room_at(final(self)@, file_id as int), username@),
            queue_of(room_at(final(self)@, file_id as int), username@) == Seq::<Seq<char>>::empty(),
            member_names(room_at(final(self)@, file_id as int)) == (if has_room(
                old(self)@,
                file_id as int,
            ) {
                member_names(room_at(old(self)@, file_id as int))
            } else {
                Set::<Seq<char>>::empty()
            }).insert(username@),
            has_room(old(self)@, file_id as int) && is_member(
                room_at(old(self)@, file_id as int),
                username@,
            ) ==> room_at(final(self)@, file_id as int).len() == room_at(
                old(self)@,
                file_id as int,
            ).len(),
    {
        let ghost v0 = self@;
        let ghost fid = file_id as int;
        let ghost name = username@;
        match self.find_room_idx(file_id) {
            None => {
                let mut users: Vec<UserState> = Vec::new();
                users.push(UserState { username, pending: Vec::new() });
                self.rooms.push(RoomEntry { file_id, room: Room { users } });
                proof {
                    let v1 = self@;
                    let fresh = UserView { username: name, pending: Seq::empty() };
                    assert(v1 =~~= v0.push(EntryView { file_id: fid, users: seq![fresh] }));
                    let last = v0.len() as int;
                    assert(v1[last].users =~~= seq![fresh]);
                    assert(has_room(v1, fid));
                    assert forall|i: int| 0 <= i < v0.len() implies #[trigger] v0[i].file_id
                        != fid by {}
                    assert forall|i: int|
                        0 <= i < v1.len() && #[trigger] v1[i].file_id == fid implies i == last by {}
                    assert(reg_wf(v1));
                    let ghost ci = choose|i: int| 0 <= i < v1.len() && v1[i].file_id == fid;
                    assert(ci == last);
                    assert(room_at(v1, fid) == seq![fresh]);
                    assert(room_at(v1, fid)[0] == fresh);
                    assert(room_at(v1, fid)[0].username == name);
                    assert(is_member(room_at(v1, fid), name));
                    let jq = choose|j: int|
                        0 <= j < room_at(v1, fid).len() && room_at(v1, fid)[j].username == name;
                    assert(jq == 0);
                    assert(queue_of(room_at(v1, fid), name) =~= Seq::<Seq<char>>::empty());
                    assert forall|n: Seq<char>| #[trigger]
                        is_member(room_at(v1, fid), n) implies n == name by {
                        let j = choose|j: int|
                            0 <= j < room_at(v1, fid).len() && room_at(v1, fid)[j].username == n;
                        assert(j == 0);
                    };
                    assert(member_names(room_at(v1, fid)) =~= Set::<Seq<char>>::empty().insert(
                        name,
                    ));
                }
            },
            Some(ri) => {
                proof {
                    assert(unique_room_ids(v0));
                    assert forall|i: int|
                        0 <= i < v0.len() && i != ri as int implies #[trigger] v0[i].file_id
                        != fid by {}
                }
                match self.find_user_idx(ri, &username) {
                    Some(ui) => {
                        self.rooms[ri].room.users[ui] = UserState {
                            username,
                            pending: Vec::new(),
                        };
                    },
                    None => {
                        self.rooms[ri].room.users.push(UserState {
                            username,
                            pending: Vec::new(),
                        });
                    },
                }
                proof {
                    let v1 = self@;
                    let i = ri as int;
                    let fresh = UserView { username: name, pending: Seq::empty() };
                    let u0 = v0[i].users;
                    let u1 = v1[i].users;
                    if is_member(u0, name) {
                        let ghost ui = choose|j: int| 0 <= j < u0.len() && u0[j].username == name;
                        assert(v1 =~~= v0.update(
                            i,
                            EntryView { file_id: fid, users: u0.update(ui, fresh) },
                        ));
                        assert forall|j: int| 0 <= j < u0.len() implies #[trigger] u1[j] == (
                        if u0[j].username == name {
                            fresh
                        } else {
                            u0[j]
                        }) by {
                            assert(unique_usernames(u0));
                            if j != ui {
                                assert(u0[j].username != name);
                            }
                        };
                        assert(user_joined(u0, u1, name));
                    } else {
                        assert(v1 =~~= v0.update(
                            i,
                            EntryView { file_id: fid, users: u0.push(fresh) },
                        ));
                        assert(user_joined(u0, u1, name));
                    }
                    lemma_user_joined_props(u0, u1, name);
                    assert(join_spec(v0, v1, fid, name));
                    assert(reg_wf(v1));
                    assert(has_room(v1, fid));
                    let ghost ci = choose|j: int| 0 <= j < v1.len() && v1[j].file_id == fid;
                    assert(ci == i);
                    assert(room_at(v1, fid) == u1);
                    let ghost c0 = choose|j: int| 0 <= j < v0.len() && v0[j].file_id == fid;
                    assert(c0 == i);
                    assert(room_at(v0, fid) == u0);
                }
            },
        }
    }

    /// Remove the participant joined under `username` from the room for
    /// `file_id`.  The room itself stays even when it empties; an absent
    /// room or name changes nothing; nobody else moves.
    pub fn leave(&mut self, file_id: i32, username: &String)
        requires
            old(self).wf(),
        ensures
            final(self).wf(),
            leave_spec(old(self)@, final(self)@, file_id as int, username@),
            forall|x: int| #[trigger] has_room(final(self)@, x) == has_room(old(self)@, x),
            has_room(old(self)@, file_id as int) ==> !is_member(
                room_at(final(self)@, file_id as int),
                username@,
            ) && member_names(room_at(final(self)@, file_id as int)) == member_names(
                room_at(old(self)@, file_id as int),
            ).remove(username@),
            !has_room(old(self)@, file_id as int) ==> final(self)@ == old(self)@,
    {
        let ghost v0 = self@;
        let ghost fid = file_id as int;
        let ghost name = username@;
        let ri = match self.find_room_idx(file_id) {
            Some(ri) => ri,
            None => {
                return ;
            },
        };
        proof {
            assert(unique_room_ids(v0));
            assert forall|i: int|
                0 <= i < v0.len() && i != ri as int implies #[trigger] v0[i].file_id != fid by {}
        }
        match self.find_user_idx(ri, username) {
            Some(ui) => {
                self.rooms[ri].room.users.remove(ui);
                proof {
                    let v1 = self@;
                    let i = ri as int;
                    let u0 = v0[i].users;
                    let u1 = v1[i].users;
                    assert(v1 =~~= v0.update(
                        i,
                        EntryView { file_id: fid, users: u0.remove(ui as int) },
                    ));
                    assert(u0[ui as int].username == name);
                    assert(user_left(u0, u1, name));
                    lemma_user_left_props(u0, u1, name);
                    assert(leave_spec(v0, v1, fid, name));
                    assert(reg_wf(v1));
                    assert forall|x: int| #[trigger] has_room(v1, x) == has_room(v0, x) by {
                        if has_room(v0, x) {
                            let w = choose|w: int| 0 <= w < v0.len() && v0[w].file_id == x;
                            assert(v1[w].file_id == x);
                        }
                        if has_room(v1, x) {
                            let w = choose|w: int| 0 <= w < v1.len() && v1[w].file_id == x;
                            assert(v0[w].file_id == x);
                        }
                    };
                    let ghost c1 = choose|j: int| 0 <= j < v1.len() && v1[j].file_id == fid;
                    assert(c1 == i);
                    assert(room_at(v1, fid) == u1);
                    let ghost c0 = choose|j: int| 0 <= j < v0.len() && v0[j].file_id == fid;
                    assert(c0 == i);
                    assert(room_at(v0, fid) == u0);
                }
            },
            None => {
                proof {
                    let v1 = self@;
                    let i = ri as int;
                    let u0 = v0[i].users;
                    lemma_user_left_props(u0, u0, name);
                    assert(leave_spec(v0, v1, fid, name));
                    let ghost c0 = choose|j: int| 0 <= j < v0.len() && v0[j].file_id == fid;
                    assert(c0 == i);
                    assert(room_at(v0, fid) == u0);
                    assert(member_names(u0) =~= member_names(u0).remove(name));
                }
            },
        }
    }

    /// Deliver the edit event `message` from `sender` into the room for
    /// `file_id`: it is appended to the outbound queue of every participant
    /// of that room except the sender itself, in place.  An absent room
    /// delivers to nobody; membership never changes; for one recipient,
    /// messages of one sender arrive in the order they were sent.
    pub fn broadcast(&mut self, file_id: i32, sender: &String, message: &String)
        requires
            old(self).wf(),
        ensures
            final(self).wf(),
            broadcast_spec(old(self)@, final(self)@, file_id as int, sender@, message@),
            forall|x: int| #[trigger] has_room(final(self)@, x) == has_room(old(self)@, x),
            has_room(old(self)@, file_id as int) ==> member_names(
                room_at(final(self)@, file_id as int),
            ) == member_names(room_at(old(self)@, file_id as int)),
            has_room(old(self)@, file_id as int) ==> forall|n: Seq<char>|
                #[trigger] is_member(room_at(old(self)@, file_id as int), n) && n != sender@
                    ==> queue_of(room_at(final(self)@, file_id as int), n) == queue_of(
                    room_at(old(self)@, file_id as int),
                    n,
                ).push(message@),
            has_room(old(self)@, file_id as int) && is_member(
                room_at(old(self)@, file_id as int),
                sender@,
            ) ==> queue_of(room_at(final(self)@, file_id as int), sender@) == queue_of(
                room_at(old(self)@, file_id as int),
                sender@,
            ),
            !has_room(old(self)@, file_id as int) ==> final(self)@ == old(self)@,
    {
        let ghost v0 = self@;
        let ghost fid = file_id as int;
        let ri = match self.find_room_idx(file_id) {
            Some(ri) => ri,
            None => {
                return ;
            },
        };
        let ghost i = ri as int;
        proof {
            assert(unique_room_ids(v0));
            assert forall|k: int|
                0 <= k < v0.len() && k != i implies #[trigger] v0[k].file_id != fid by {}
        }
        let n_users = self.rooms[ri].room.users.len();
        let mut u: usize = 0;
        while u < n_users
            invariant
                reg_wf(v0),
                0 <= i < v0.len(),
                i == ri as int,
                v0[i].file_id == fid,
                self@.len() == v0.len(),
                self@.len() == self.rooms@.len(),
                forall|k: int| 0 <= k < v0.len() && k != i ==> #[trigger] self@[k] == v0[k],
                self@[i].file_id == fid,
                n_users == v0[i].users.len(),
                self@[i].users.len() == v0[i].users.len(),
                u <= n_users,
                forall|j: int|
                    0 <= j < u ==> #[trigger] self@[i].users[j] == (if v0[i].users[j].username
                        == sender@ {
                        v0[i].users[j]
                    } else {
                        UserView {
                            username: v0[i].users[j].username,
                            pending: v0[i].users[j].pending.push(message@),
                        }
                    }),
                forall|j: int| u <= j < n_users ==> #[trigger] self@[i].users[j] == v0[i].users[j],
            decreases n_users - u,
        {
            let ghost pre = self@;
            proof {
                assert(self@[i].users[u as int] == self.rooms@[i].room.users@[u as int]@);
            }
            if !self.rooms[ri].room.users[u].username.eq(sender) {
                self.rooms[ri].room.users[u].pending.push(message.clone());
                proof {
                    let cur = self@;
                    assert(cur =~~= pre.update(
                        i,
                        EntryView {
                            file_id: pre[i].file_id,
                            users: pre[i].users.update(
                                u as int,
                                UserView {
                                    username: pre[i].users[u as int].username,
                                    pending: pre[i].users[u as int].pending.push(message@),
                                },
                            ),
                        },
                    ));
                }
            }
            u = u + 1;
        }
        proof {
            let v1 = self@;
            let u0 = v0[i].users;
            let u1 = v1[i].users;
            assert(user_broadcast(u0, u1, sender@, message@));
            lemma_user_broadcast_props(u0, u1, sender@, message@);
            assert(broadcast_spec(v0, v1, fid, sender@, message@));
            assert(reg_wf(v1));
            assert forall|x: int| #[trigger] has_room(v1, x) == has_room(v0, x) by {
                if has_room(v0, x) {
                    let w = choose|w: int| 0 <= w < v0.len() && v0[w].file_id == x;
                    assert(v1[w].file_id == x);
                }
                if has_room(v1, x) {
                    let w = choose|w: int| 0 <= w < v1.len() && v1[w].file_id == x;
                    assert(v0[w].file_id == x);
                }
            };
            let ghost c1 = choose|j: int| 0 <= j < v1.len() && v1[j].file_id == fid;
            assert(c1 == i);
            assert(room_at(v1, fid) == u1);
            let ghost c0 = choose|j: int| 0 <= j < v0.len() && v0[j].file_id == fid;
            assert(c0 == i);
            assert(room_at(v0, fid) == u0);
        }
    }

    /// Hand out — and clear — the outbound queue of the participant joined
    /// under `username` in the room for `file_id`, in delivery order; the
    /// relay loop drains it towards the transport.  An absent room or name
    /// yields nothing and changes nothing; nobody else moves.
    pub fn take_pending(&mut self, file_id: i32, username: &String) -> (msgs: Vec<String>)
        requires
            old(self).wf(),
        ensures
            final(self).wf(),
            drain_spec(old(self)@, final(self)@, file_id as int, username@),
            forall|x: int| #[trigger] has_room(final(self)@, x) == has_room(old(self)@, x),
            has_room(old(self)@, file_id as int) && is_member(
                room_at(old(self)@, file_id as int),
                username@,
            ) ==> msgs@.map_values(|m: String| m@) == queue_of(
                room_at(old(self)@, file_id as int),
                username@,
            ) && queue_of(room_at(final(self)@, file_id as int), username@) == Seq::<
                Seq<char>,
            >::empty(),
            has_room(old(self)@, file_id as int) ==> member_names(
                room_at(final(self)@, file_id as int),
            ) == member_names(room_at(old(self)@, file_id as int)),
            !(has_room(old(self)@, file_id as int) && is_member(
                room_at(old(self)@, file_id as int),
                username@,
            )) ==> msgs@ == Seq::<String>::empty() && final(self)@ == old(self)@,
    {
        let ghost v0 = self@;
        let ghost fid = file_id as int;
        let ghost name = username@;
        let ri = match self.find_room_idx(file_id) {
            Some(ri) => ri,
            None => {
                let r: Vec<String> = Vec::new();
                proof {
                    assert(r@ =~= Seq::<String>::empty());
                }
                return r;
            },
        };
        let ghost i = ri as int;
        proof {
            assert(unique_room_ids(v0));
            assert forall|k: int|
                0 <= k < v0.len() && k != i implies #[trigger] v0[k].file_id != fid by {}
            let ghost c0 = choose|j: int| 0 <= j < v0.len() && v0[j].file_id == fid;
            assert(c0 == i);
            assert(room_at(v0, fid) == v0[i].users);
        }
        let ui = match self.find_user_idx(ri, username) {
            Some(ui) => ui,
            None => {
                let r: Vec<String> = Vec::new();
                proof {
                    assert(r@ =~= Seq::<String>::empty());
                    let u0 = v0[i].users;
                    lemma_user_drained_props(u0, u0, name);
                    assert(drain_spec(v0, self@, fid, name));
                }
                return r;
            },
        };
        let msgs = copy_strings(&self.rooms[ri].room.users[ui].pending);
        self.rooms[ri].room.users[ui].pending = Vec::new();
        proof {
            let v1 = self@;
            let u0 = v0[i].users;
            let u1 = v1[i].users;
            assert(u0[ui as int].username == name);
            assert(is_member(u0, name));
            assert(v1 =~~= v0.update(
                i,
                EntryView {
                    file_id: fid,
                    users: u0.update(
                        ui as int,
                        UserView { username: u0[ui as int].username, pending: Seq::empty() },
                    ),
                },
            ));
            assert forall|j: int| 0 <= j < u0.len() implies #[trigger] u1[j] == (
            if u0[j].username == name {
                UserView { username: u0[j].username, pending: Seq::empty() }
            } else {
                u0[j]
            }) by {
                assert(unique_usernames(u0));
                if j != ui as int {
                    assert(u0[j].username != name);
                }
            };
            assert(user_drained(u0, u1, name));
            lemma_user_drained_props(u0, u1, name);
            assert(drain_spec(v0, v1, fid, name));
            assert(reg_wf(v1));
            assert forall|x: int| #[trigger] has_room(v1, x) == has_room(v0, x) by {
                if has_room(v0, x) {
                    let w = choose|w: int| 0 <= w < v0.len() && v0[w].file_id == x;
                    assert(v1[w].file_id == x);
                }
                if has_room(v1, x) {
                    let w = choose|w: int| 0 <= w < v1.len() && v1[w].file_id == x;
                    assert(v0[w].file_id == x);
                }
            };
            let ghost c1 = choose|j: int| 0 <= j < v1.len() && v1[j].file_id == fid;
            assert(c1 == i);
            assert(room_at(v1, fid) == u1);
            let jq = choose|j: int| 0 <= j < u0.len() && u0[j].username == name;
            assert(jq == ui as int);
            assert(queue_of(u0, name) == u0[ui as int].pending);
            assert(msgs@.map_values(|m: String| m@) == queue_of(room_at(v0, fid), name));
        }
        msgs
    }

    /// Whether a room currently serves `file_id`.
    pub fn room_exists(&self, file_id: i32) -> (r: bool)
        ensures
            r == has_room(self@, file_id as int),
    {
        match self.find_room_idx(file_id) {
            Some(_) => true,
            None => false,
        }
    }

    /// The names of the participants of the room for `file_id`, in room
    /// order, or nothing when no room serves that id.
    pub fn member_list(&self, file_id: i32) -> (r: Option<Vec<String>>)
        requires
            self.wf(),
        ensures
            match r {
                Some(names) => has_room(self@, file_id as int) && names@.map_values(|m: String| m@)
                    == room_at(self@, file_id as int).map_values(|uv: UserView| uv.username),
                None => !has_room(self@, file_id as int),
            },
    {
        let ri = match self.find_room_idx(file_id) {
            Some(ri) => ri,
            None => {
                return None;
            },
        };
        let ghost i = ri as int;
        proof {
            assert(unique_room_ids(self@));
            let ghost c0 = choose|j: int| 0 <= j < self@.len() && self@[j].file_id == file_id as int;
            assert(c0 == i);
            assert(room_at(self@, file_id as int) == self@[i].users);
        }
        let mut names: Vec<String> = Vec::new();
        let mut u: usize = 0;
        while u < self.rooms[ri].room.users.len()
            invariant
                ri < self.rooms@.len(),
                i == ri as int,
                self@.len() == self.rooms@.len(),
                u <= self.rooms@[i].room.users@.len(),
                self@[i].users.len() == self.rooms@[i].room.users@.len(),
                names@.len() == u,
                forall|j: int|
                    0 <= j < u ==> #[trigger] names@[j]@ == self@[i].users[j].username,
            decreases self.rooms@[i].room.users@.len() - u,
        {
            proof {
                assert(self@[i].users[u as int] == self.rooms@[i].room.users@[u as int]@);
            }
            names.push(self.rooms[ri].room.users[u].username.clone());
            u = u + 1;
        }
        proof {
            assert(names@.map_values(|m: String| m@) =~~= self@[i].users.map_values(
                |uv: UserView| uv.username,
            ));
        }
        Some(names)
    }
}

/// Law: a room's membership tracks the connection lifecycle exactly — a
/// join adds precisely the joining name and a leave removes precisely the
/// leaving name — so a join followed by the matching leave gives back the
/// membership the room began with (the room itself, once created, stays).
pub proof fn lemma_membership_tracks_lifecycle(
    v0: Seq<EntryView>,
    v1: Seq<EntryView>,
    v2: Seq<EntryView>,
    fid: int,
    name: Seq<char>,
)
    requires
        reg_wf(v0),
        reg_wf(v1),
        join_spec(v0, v1, fid, name),
        leave_spec(v1, v2, fid, name),
        has_room(v0, fid) ==> !is_member(room_at(v0, fid), name),
    ensures
        has_room(v1, fid),
        member_names(room_at(v1, fid)) == (if has_room(v0, fid) {
            member_names(room_at(v0, fid))
        } else {
            Set::<Seq<char>>::empty()
        }).insert(name),
        has_room(v2, fid),
        member_names(room_at(v2, fid)) == (if has_room(v0, fid) {
            member_names(room_at(v0, fid))
        } else {
            Set::<Seq<char>>::empty()
        }),
{
    if has_room(v0, fid) {
        let i = choose|i: int| 0 <= i < v0.len() && v0[i].file_id == fid;
        assert forall|k: int|
            0 <= k < v0.len() && k != i implies #[trigger] v0[k].file_id != fid by {}
        assert(v1[i].file_id == fid);
        assert(has_room(v1, fid));
        let c1 = choose|j: int| 0 <= j < v1.len() && v1[j].file_id == fid;
        assert(c1 == i);
        assert(room_at(v0, fid) == v0[i].users);
        assert(room_at(v1, fid) == v1[i].users);
        assert(user_joined(v0[i].users, v1[i].users, name));
        lemma_user_joined_props(v0[i].users, v1[i].users, name);
        assert(v2[i].file_id == fid);
        assert(has_room(v2, fid));
        let c2 = choose|j: int| 0 <= j < v2.len() && v2[j].file_id == fid;
        assert(c2 == i);
        assert(room_at(v2, fid) == v2[i].users);
        assert(user_left(v1[i].users, v2[i].users, name));
        lemma_user_left_props(v1[i].users, v2[i].users, name);
        assert(member_names(room_at(v2, fid)) =~= member_names(room_at(v0, fid)));
    } else {
        let fresh = UserView { username: name, pending: Seq::empty() };
        assert(v1 == v0.push(EntryView { file_id: fid, users: seq![fresh] }));
        let last = v0.len() as int;
        assert(v1[last].file_id == fid);
        assert(has_room(v1, fid));
        let c1 = choose|j: int| 0 <= j < v1.len() && v1[j].file_id == fid;
        assert(c1 == last);
        assert(room_at(v1, fid) == seq![fresh]);
        assert(room_at(v1, fid)[0].username == name);
        assert(is_member(room_at(v1, fid), name));
        assert forall|n: Seq<char>| #[trigger]
            is_member(room_at(v1, fid), n) implies n == name by {
            let j = choose|j: int|
                0 <= j < room_at(v1, fid).len() && room_at(v1, fid)[j].username == n;
            assert(j == 0);
        };
        assert(member_names(room_at(v1, fid)) =~= Set::<Seq<char>>::empty().insert(name));
        assert(v2[last].file_id == fid);
        assert(has_room(v2, fid));
        let c2 = choose|j: int| 0 <= j < v2.len() && v2[j].file_id == fid;
        assert(c2 == last);
        assert(room_at(v2, fid) == v2[last].users);
        assert(user_left(v1[last].users, v2[last].users, name));
        lemma_user_left_props(v1[last].users, v2[last].users, name);
        assert(member_names(room_at(v2, fid)) =~= Set::<Seq<char>>::empty());
    }
}

/// Law: a broadcast is received by every participant present in the
/// sender's room at the moment of sending — exactly once, at the end of
/// that participant's queue — and never by the sender itself; membership
/// does not move.
pub proof fn lemma_broadcast_delivery(
    v0: Seq<EntryView>,
    v1: Seq<EntryView>,
    fid: int,
    sender: Seq<char>,
    msg: Seq<char>,
    n: Seq<char>,
)
    requires
        reg_wf(v0),
        broadcast_spec(v0, v1, fid, sender, msg),
        has_room(v0, fid),
        is_member(room_at(v0, fid), n),
    ensures
        member_names(room_at(v1, fid)) == member_names(room_at(v0, fid)),
        n != sender ==> queue_of(room_at(v1, fid), n) == queue_of(room_at(v0, fid), n).push(msg),
        n == sender ==> queue_of(room_at(v1, fid), n) == queue_of(room_at(v0, fid), n),
{
    let i = choose|i: int| 0 <= i < v0.len() && v0[i].file_id == fid;
    assert forall|k: int|
        0 <= k < v0.len() && k != i implies #[trigger] v0[k].file_id != fid by {}
    assert(room_at(v0, fid) == v0[i].users);
    assert(v1[i].file_id == fid);
    assert(has_room(v1, fid));
    let c1 = choose|j: int| 0 <= j < v1.len() && v1[j].file_id == fid;
    assert(c1 == i);
    assert(room_at(v1, fid) == v1[i].users);
    assert(user_broadcast(v0[i].users, v1[i].users, sender, msg));
    lemma_user_broadcast_props(v0[i].users, v1[i].users, sender, msg);
}

/// A copy of a sequence of messages, in order.
fn copy_strings(v: &Vec<String>) -> (r: Vec<String>)
    ensures
        r@.map_values(|m: String| m@) == v@.map_values(|m: String| m@),
        r@.len() == v@.len(),
{
    let mut r: Vec<String> = Vec::new();
    let mut i: usize = 0;
    while i < v.len()
        invariant
            i <= v@.len(),
            r@.len() == i,
            forall|j: int| 0 <= j < i ==> #[trigger] r@[j]@ == v@[j]@,
        decreases v@.len() - i,
    {
        r.push(v[i].clone());
        i = i + 1;
    }
    proof {
        assert(r@.map_values(|m: String| m@) =~~= v@.map_values(|m: String| m@));
    }
    r
}

} // verus!
