//! The session-lifecycle laws, stated over whole operation histories: for
//! any sequence of joins, leaves, broadcasts and queue drains, a room's
//! membership set equals exactly the participants whose connections are
//! currently open for that file id, and a participant's outbound queue
//! holds exactly the events broadcast by the others since that participant
//! last joined or was last drained, in send order.

use vstd::prelude::*;
use crate::rooms::{
    broadcast_spec, drain_spec, has_room, is_member, join_spec, leave_spec,
    lemma_user_broadcast_props, lemma_user_drained_props, lemma_user_joined_props,
    lemma_user_left_props, member_names, queue_of, reg_wf, room_at, unique_room_ids,
    unique_usernames, user_broadcast, user_drained, user_joined, user_left, EntryView, UserView,
};

verus! {

/// One operation of a session's lifecycle against the registry.
pub enum SessionOp {
    Join { file_id: int, name: Seq<char> },
    Leave { file_id: int, name: Seq<char> },
    Broadcast { file_id: int, sender: Seq<char>, message: Seq<char> },
    Drain { file_id: int, name: Seq<char> },
}

/// One operation's effect on the registry, exactly as the registry's own
/// contracts state it.
pub open spec fn run_step(v0: Seq<EntryView>, op: SessionOp, v1: Seq<EntryView>) -> bool {
    match op {
        SessionOp::Join { file_id, name } => join_spec(v0, v1, file_id, name),
        SessionOp::Leave { file_id, name } => leave_spec(v0, v1, file_id, name),
        SessionOp::Broadcast { file_id, sender, message } => broadcast_spec(
            v0,
            v1,
            file_id,
            sender,
            message,
        ),
        SessionOp::Drain { file_id, name } => drain_spec(v0, v1, file_id, name),
    }
}

/// The names of the room for `fid`, or the empty set while no such room
/// exists.
pub open spec fn present_names(v: Seq<EntryView>, fid: int) -> Set<Seq<char>> {
    if has_room(v, fid) {
        member_names(room_at(v, fid))
    } else {
        Set::<Seq<char>>::empty()
    }
}

/// The connections open for `fid` after `ops`, starting from `start`: a
/// join opens one under its name, a leave closes it, and nothing else
/// touches membership.
pub open spec fn open_connections(start: Set<Seq<char>>, ops: Seq<SessionOp>, fid: int) -> Set<
    Seq<char>,
>
    decreases ops.len(),
{
    if ops.len() == 0 {
        start
    } else {
        let next = match ops[0] {
            SessionOp::Join { file_id, name } => if file_id == fid {
                start.insert(name)
            } else {
                start
            },
            SessionOp::Leave { file_id, name } => if file_id == fid {
                start.remove(name)
            } else {
                start
            },
            SessionOp::Broadcast { .. } => start,
            SessionOp::Drain { .. } => start,
        };
        open_connections(next, ops.drop_first(), fid)
    }
}

/// Whether `op` is a join into the room for `fid`.
pub open spec fn is_join_for(op: SessionOp, fid: int) -> bool {
    match op {
        SessionOp::Join { file_id, .. } => file_id == fid,
        _ => false,
    }
}

/// Whether `ops` holds a join for `fid` — the only way a room comes to be.
pub open spec fn room_created(ops: Seq<SessionOp>, fid: int) -> bool {
    exists|k: int| 0 <= k < ops.len() && is_join_for(#[trigger] ops[k], fid)
}

/// The queue of the participant joined under `who` in the room for `fid`,
/// or nothing while that participant is not connected there.
pub open spec fn queue_state(v: Seq<EntryView>, fid: int, who: Seq<char>) -> Option<
    Seq<Seq<char>>,
> {
    if has_room(v, fid) && is_member(room_at(v, fid), who) {
        Some(queue_of(room_at(v, fid), who))
    } else {
        None
    }
}

/// How one operation moves one participant's queue: a join under the name
/// starts it empty (a rejoin resets it), a leave ends it, a broadcast by
/// anyone else appends its message, a drain empties it, and every other
/// operation leaves it alone.
pub open spec fn step_queue(
    cur: Option<Seq<Seq<char>>>,
    op: SessionOp,
    fid: int,
    who: Seq<char>,
) -> Option<Seq<Seq<char>>> {
    match op {
        SessionOp::Join { file_id, name } => if file_id == fid && name == who {
            Some(Seq::<Seq<char>>::empty())
        } else {
            cur
        },
        SessionOp::Leave { file_id, name } => if file_id == fid && name == who {
            None
        } else {
            cur
        },
        SessionOp::Broadcast { file_id, sender, message } => if file_id == fid && sender != who {
            match cur {
                Some(q) => Some(q.push(message)),
                None => None,
            }
        } else {
            cur
        },
        SessionOp::Drain { file_id, name } => if file_id == fid && name == who {
            match cur {
                Some(_) => Some(Seq::<Seq<char>>::empty()),
                None => None,
            }
        } else {
            cur
        },
    }
}

/// One participant's queue after `ops`, starting from `cur`.
pub open spec fn queue_after(
    cur: Option<Seq<Seq<char>>>,
    ops: Seq<SessionOp>,
    fid: int,
    who: Seq<char>,
) -> Option<Seq<Seq<char>>>
    decreases ops.len(),
{
    if ops.len() == 0 {
        cur
    } else {
        queue_after(step_queue(cur, ops[0], fid, who), ops.drop_first(), fid, who)
    }
}


/// What one join does to any one room's present names, derived from
/// `join_spec` alone.
pub proof fn lemma_join_effect(
    v0: Seq<EntryView>,
    v1: Seq<EntryView>,
    f: int,
    n: Seq<char>,
    fid: int,
)
    requires
        reg_wf(v0),
        join_spec(v0, v1, f, n),
    ensures
        reg_wf(v1),
        has_room(v1, fid) == (has_room(v0, fid) || f == fid),
        f == fid ==> present_names(v1, fid) == present_names(v0, fid).insert(n),
        f != fid ==> present_names(v1, fid) == present_names(v0, fid),
{
    if has_room(v0, f) {
        let i = choose|i: int| 0 <= i < v0.len() && v0[i].file_id == f;
        assert forall|k: int|
            0 <= k < v0.len() && k != i implies #[trigger] v0[k].file_id != f by {}
        assert(user_joined(v0[i].users, v1[i].users, n));
        lemma_user_joined_props(v0[i].users, v1[i].users, n);
        assert forall|k: int| 0 <= k < v1.len() implies unique_usernames(
            #[trigger] v1[k].users,
        ) by {
            if k != i {
                assert(v1[k].users == v0[k].users);
            }
        };
        assert(unique_room_ids(v1));
        assert(reg_wf(v1));
        assert forall|x: int| #[trigger] has_room(v1, x) == has_room(v0, x) by {
            if has_room(v0, x) {
                let w = choose|w: int| 0 <= w < v0.len() && v0[w].file_id == x;
                assert(v1[w].file_id == x);
            }
            if has_room(v1, x) {
                let w = choose|w: int| 0 <= w < v1.len() && v1[w].file_id == x;
                assert(v0[w].file_id == x);
            }
        };
        if has_room(v0, fid) {
            let j = choose|j: int| 0 <= j < v0.len() && v0[j].file_id == fid;
            assert forall|k: int|
                0 <= k < v0.len() && k != j implies #[trigger] v0[k].file_id != fid by {}
            assert(v1[j].file_id == fid);
            assert(has_room(v1, fid));
            let j1 = choose|j1: int| 0 <= j1 < v1.len() && v1[j1].file_id == fid;
            assert(v0[j1].file_id == fid);
            assert(j1 == j);
            assert(room_at(v0, fid) == v0[j].users);
            assert(room_at(v1, fid) == v1[j].users);
            if f == fid {
                assert(j == i);
                assert(present_names(v1, fid) == present_names(v0, fid).insert(n));
            } else {
                assert(j != i);
                assert(v1[j].users == v0[j].users);
                assert(present_names(v1, fid) == present_names(v0, fid));
            }
        } else {
            assert(f != fid);
            assert(!has_room(v1, fid));
        }
    } else {
        let fresh = UserView { username: n, pending: Seq::empty() };
        assert(v1 == v0.push(EntryView { file_id: f, users: seq![fresh] }));
        let last = v0.len() as int;
        assert forall|k: int| 0 <= k < v1.len() implies unique_usernames(
            #[trigger] v1[k].users,
        ) by {
            if k != last {
                assert(v1[k] == v0[k]);
            } else {
                assert(v1[last].users == seq![fresh]);
            }
        };
        assert forall|k: int|
            0 <= k < v0.len() implies #[trigger] v0[k].file_id != f by {}
        assert(unique_room_ids(v1));
        assert(reg_wf(v1));
        assert(v1[last].file_id == f);
        assert(has_room(v1, f));
        if fid == f {
            let j1 = choose|j1: int| 0 <= j1 < v1.len() && v1[j1].file_id == fid;
            assert(j1 == last);
            assert(room_at(v1, fid) == seq![fresh]);
            assert(room_at(v1, fid)[0].username == n);
            assert(is_member(room_at(v1, fid), n));
            assert forall|m: Seq<char>| #[trigger]
                is_member(room_at(v1, fid), m) implies m == n by {
                let q = choose|q: int|
                    0 <= q < room_at(v1, fid).len() && room_at(v1, fid)[q].username == m;
                assert(q == 0);
            };
            assert(member_names(room_at(v1, fid)) =~= Set::<Seq<char>>::empty().insert(n));
            assert(present_names(v1, fid) == present_names(v0, fid).insert(n));
        } else {
            if has_room(v0, fid) {
                let j = choose|j: int| 0 <= j < v0.len() && v0[j].file_id == fid;
                assert forall|k: int|
                    0 <= k < v0.len() && k != j implies #[trigger] v0[k].file_id != fid by {}
                assert(v1[j].file_id == fid);
                assert(has_room(v1, fid));
                let j1 = choose|j1: int| 0 <= j1 < v1.len() && v1[j1].file_id == fid;
                assert(j1 == j);
                assert(v1[j] == v0[j]);
                assert(present_names(v1, fid) == present_names(v0, fid));
            } else {
                assert forall|k: int|
                    0 <= k < v1.len() implies #[trigger] v1[k].file_id != fid by {
                    if k != last {
                        assert(v1[k] == v0[k]);
                    }
                };
                assert(!has_room(v1, fid));
            }
        }
    }
}

/// What one leave does to any one room's present names, derived from
/// `leave_spec` alone.
pub proof fn lemma_leave_effect(
    v0: Seq<EntryView>,
    v1: Seq<EntryView>,
    f: int,
    n: Seq<char>,
    fid: int,
)
    requires
        reg_wf(v0),
        leave_spec(v0, v1, f, n),
    ensures
        reg_wf(v1),
        has_room(v1, fid) == has_room(v0, fid),
        f == fid ==> present_names(v1, fid) == present_names(v0, fid).remove(n),
        f != fid ==> present_names(v1, fid) == present_names(v0, fid),
{
    if has_room(v0, f) {
        let i = choose|i: int| 0 <= i < v0.len() && v0[i].file_id == f;
        assert forall|k: int|
            0 <= k < v0.len() && k != i implies #[trigger] v0[k].file_id != f by {}
        assert(user_left(v0[i].users, v1[i].users, n));
        lemma_user_left_props(v0[i].users, v1[i].users, n);
        assert forall|k: int| 0 <= k < v1.len() implies unique_usernames(
            #[trigger] v1[k].users,
        ) by {
            if k != i {
                assert(v1[k].users == v0[k].users);
            }
        };
        assert(unique_room_ids(v1));
        assert(reg_wf(v1));
        assert forall|x: int| #[trigger] has_room(v1, x) == has_room(v0, x) by {
            if has_room(v0, x) {
                let w = choose|w: int| 0 <= w < v0.len() && v0[w].file_id == x;
                assert(v1[w].file_id == x);
            }
            if has_room(v1, x) {
                let w = choose|w: int| 0 <= w < v1.len() && v1[w].file_id == x;
                assert(v0[w].file_id == x);
            }
        };
        if has_room(v0, fid) {
            let j = choose|j: int| 0 <= j < v0.len() && v0[j].file_id == fid;
            assert forall|k: int|
                0 <= k < v0.len() && k != j implies #[trigger] v0[k].file_id != fid by {}
            assert(v1[j].file_id == fid);
            assert(has_room(v1, fid));
            let j1 = choose|j1: int| 0 <= j1 < v1.len() && v1[j1].file_id == fid;
            assert(v0[j1].file_id == fid);
            assert(j1 == j);
            assert(room_at(v0, fid) == v0[j].users);
            assert(room_at(v1, fid) == v1[j].users);
            if f == fid {
                assert(j == i);
                assert(present_names(v1, fid) == present_names(v0, fid).remove(n));
            } else {
                assert(j != i);
                assert(v1[j].users == v0[j].users);
                assert(present_names(v1, fid) == present_names(v0, fid));
            }
        } else {
            assert(!has_room(v1, fid));
            if f == fid {
                assert(false);
            }
        }
    } else {
        assert(v1 == v0);
        if f == fid {
            assert(!has_room(v0, fid));
            assert(present_names(v0, fid) =~= present_names(v0, fid).remove(n));
        }
    }
}

/// A broadcast moves no membership: every room keeps exactly its names,
/// derived from `broadcast_spec` alone.
pub proof fn lemma_broadcast_effect(
    v0: Seq<EntryView>,
    v1: Seq<EntryView>,
    f: int,
    s: Seq<char>,
    m: Seq<char>,
    fid: int,
)
    requires
        reg_wf(v0),
        broadcast_spec(v0, v1, f, s, m),
    ensures
        reg_wf(v1),
        has_room(v1, fid) == has_room(v0, fid),
        present_names(v1, fid) == present_names(v0, fid),
{
    if has_room(v0, f) {
        let i = choose|i: int| 0 <= i < v0.len() && v0[i].file_id == f;
        assert forall|k: int|
            0 <= k < v0.len() && k != i implies #[trigger] v0[k].file_id != f by {}
        assert(user_broadcast(v0[i].users, v1[i].users, s, m));
        lemma_user_broadcast_props(v0[i].users, v1[i].users, s, m);
        assert forall|k: int| 0 <= k < v1.len() implies unique_usernames(
            #[trigger] v1[k].users,
        ) by {
            if k != i {
                assert(v1[k].users == v0[k].users);
            }
        };
        assert(unique_room_ids(v1));
        assert(reg_wf(v1));
        assert forall|x: int| #[trigger] has_room(v1, x) == has_room(v0, x) by {
            if has_room(v0, x) {
                let w = choose|w: int| 0 <= w < v0.len() && v0[w].file_id == x;
                assert(v1[w].file_id == x);
            }
            if has_room(v1, x) {
                let w = choose|w: int| 0 <= w < v1.len() && v1[w].file_id == x;
                assert(v0[w].file_id == x);
            }
        };
        if has_room(v0, fid) {
            let j = choose|j: int| 0 <= j < v0.len() && v0[j].file_id == fid;
            assert forall|k: int|
                0 <= k < v0.len() && k != j implies #[trigger] v0[k].file_id != fid by {}
            assert(v1[j].file_id == fid);
            assert(has_room(v1, fid));
            let j1 = choose|j1: int| 0 <= j1 < v1.len() && v1[j1].file_id == fid;
            assert(v0[j1].file_id == fid);
            assert(j1 == j);
            assert(room_at(v0, fid) == v0[j].users);
            assert(room_at(v1, fid) == v1[j].users);
            if f == fid {
                assert(j == i);
                assert(present_names(v1, fid) == present_names(v0, fid));
            } else {
                assert(v1[j].users == v0[j].users);
                assert(present_names(v1, fid) == present_names(v0, fid));
            }
        } else {
            assert(!has_room(v1, fid));
        }
    } else {
        assert(v1 == v0);
    }
}

/// A drain moves no membership either, derived from `drain_spec` alone.
pub proof fn lemma_drain_effect(
    v0: Seq<EntryView>,
    v1: Seq<EntryView>,
    f: int,
    n: Seq<char>,
    fid: int,
)
    requires
        reg_wf(v0),
        drain_spec(v0, v1, f, n),
    ensures
        reg_wf(v1),
        has_room(v1, fid) == has_room(v0, fid),
        present_names(v1, fid) == present_names(v0, fid),
{
    if has_room(v0, f) {
        let i = choose|i: int| 0 <= i < v0.len() && v0[i].file_id == f;
        assert forall|k: int|
            0 <= k < v0.len() && k != i implies #[trigger] v0[k].file_id != f by {}
        assert(user_drained(v0[i].users, v1[i].users, n));
        lemma_user_drained_props(v0[i].users, v1[i].users, n);
        assert forall|k: int| 0 <= k < v1.len() implies unique_usernames(
            #[trigger] v1[k].users,
        ) by {
            if k != i {
                assert(v1[k].users == v0[k].users);
            }
        };
        assert(unique_room_ids(v1));
        assert(reg_wf(v1));
        assert forall|x: int| #[trigger] has_room(v1, x) == has_room(v0, x) by {
            if has_room(v0, x) {
                let w = choose|w: int| 0 <= w < v0.len() && v0[w].file_id == x;
                assert(v1[w].file_id == x);
            }
            if has_room(v1, x) {
                let w = choose|w: int| 0 <= w < v1.len() && v1[w].file_id == x;
                assert(v0[w].file_id == x);
            }
        };
        if has_room(v0, fid) {
            let j = choose|j: int| 0 <= j < v0.len() && v0[j].file_id == fid;
            assert forall|k: int|
                0 <= k < v0.len() && k != j implies #[trigger] v0[k].file_id != fid by {}
            assert(v1[j].file_id == fid);
            assert(has_room(v1, fid));
            let j1 = choose|j1: int| 0 <= j1 < v1.len() && v1[j1].file_id == fid;
            assert(v0[j1].file_id == fid);
            assert(j1 == j);
            assert(room_at(v0, fid) == v0[j].users);
            assert(room_at(v1, fid) == v1[j].users);
            if f == fid {
                assert(j == i);
                assert(present_names(v1, fid) == present_names(v0, fid));
            } else {
                assert(v1[j].users == v0[j].users);
                assert(present_names(v1, fid) == present_names(v0, fid));
            }
        } else {
            assert(!has_room(v1, fid));
        }
    } else {
        assert(v1 == v0);
    }
}


/// One operation moves one participant's queue exactly as `step_queue`
/// says, derived from the registry's contracts alone.
pub proof fn lemma_queue_step(
    v0: Seq<EntryView>,
    v1: Seq<EntryView>,
    op: SessionOp,
    fid: int,
    who: Seq<char>,
)
    requires
        reg_wf(v0),
        run_step(v0, op, v1),
    ensures
        reg_wf(v1),
        queue_state(v1, fid, who) == step_queue(queue_state(v0, fid, who), op, fid, who),
{
    match op {
        SessionOp::Join { file_id: f, name: n } => {
            lemma_join_effect(v0, v1, f, n, fid);
            if has_room(v0, f) {
                let i = choose|i: int| 0 <= i < v0.len() && v0[i].file_id == f;
                assert forall|k: int|
                    0 <= k < v0.len() && k != i implies #[trigger] v0[k].file_id != f by {}
                let u0 = v0[i].users;
                let u1 = v1[i].users;
                assert(user_joined(u0, u1, n));
                lemma_user_joined_props(u0, u1, n);
                if f == fid {
                    assert(v1[i].file_id == fid);
                    let c0 = choose|c: int| 0 <= c < v0.len() && v0[c].file_id == fid;
                    assert(c0 == i);
                    assert(room_at(v0, fid) == u0);
                    let c1 = choose|c: int| 0 <= c < v1.len() && v1[c].file_id == fid;
                    assert(v0[c1].file_id == fid);
                    assert(c1 == i);
                    assert(room_at(v1, fid) == u1);
                    if n == who {
                        assert(is_member(u1, who));
                        assert(queue_of(u1, who) == Seq::<Seq<char>>::empty());
                    } else {
                        if is_member(u0, who) {
                            assert(is_member(u1, who) && queue_of(u1, who) == queue_of(u0, who));
                        } else {
                            assert(!is_member(u1, who));
                        }
                    }
                } else {
                    lemma_room_untouched(v0, v1, f, i, fid, who);
                }
            } else {
                let fresh = UserView { username: n, pending: Seq::empty() };
                assert(v1 == v0.push(EntryView { file_id: f, users: seq![fresh] }));
                let last = v0.len() as int;
                if f == fid {
                    let c1 = choose|c: int| 0 <= c < v1.len() && v1[c].file_id == fid;
                    assert forall|k: int|
                        0 <= k < v0.len() implies #[trigger] v0[k].file_id != f by {}
                    assert(c1 == last);
                    assert(room_at(v1, fid) == seq![fresh]);
                    if n == who {
                        assert(room_at(v1, fid)[0].username == who);
                        assert(is_member(room_at(v1, fid), who));
                        let q = choose|q: int|
                            0 <= q < room_at(v1, fid).len() && room_at(v1, fid)[q].username == who;
                        assert(q == 0);
                        assert(queue_of(room_at(v1, fid), who) =~= Seq::<Seq<char>>::empty());
                    } else {
                        assert forall|q: int|
                            0 <= q < room_at(v1, fid).len() implies #[trigger] room_at(v1, fid)[q].username
                            != who by {
                            assert(q == 0);
                        };
                        assert(!is_member(room_at(v1, fid), who));
                    }
                } else {
                    if has_room(v0, fid) {
                        let j = choose|j: int| 0 <= j < v0.len() && v0[j].file_id == fid;
                        assert(unique_room_ids(v0));
                        assert forall|k: int|
                            0 <= k < v0.len() && k != j implies #[trigger] v0[k].file_id != fid by {}
                        assert(v1[j].file_id == fid);
                        let j1 = choose|c: int| 0 <= c < v1.len() && v1[c].file_id == fid;
                        assert(j1 == j);
                        assert(v1[j] == v0[j]);
                        assert(room_at(v1, fid) == room_at(v0, fid));
                    }
                }
            }
        },
        SessionOp::Leave { file_id: f, name: n } => {
            lemma_leave_effect(v0, v1, f, n, fid);
            if has_room(v0, f) {
                let i = choose|i: int| 0 <= i < v0.len() && v0[i].file_id == f;
                assert forall|k: int|
                    0 <= k < v0.len() && k != i implies #[trigger] v0[k].file_id != f by {}
                let u0 = v0[i].users;
                let u1 = v1[i].users;
                assert(user_left(u0, u1, n));
                lemma_user_left_props(u0, u1, n);
                if f == fid {
                    let c0 = choose|c: int| 0 <= c < v0.len() && v0[c].file_id == fid;
                    assert(c0 == i);
                    assert(room_at(v0, fid) == u0);
                    assert(v1[i].file_id == fid);
                    let c1 = choose|c: int| 0 <= c < v1.len() && v1[c].file_id == fid;
                    assert(v0[c1].file_id == fid);
                    assert(c1 == i);
                    assert(room_at(v1, fid) == u1);
                    if n == who {
                        assert(!is_member(u1, who));
                    } else {
                        if is_member(u0, who) {
                            assert(is_member(u1, who) && queue_of(u1, who) == queue_of(u0, who));
                        } else {
                            assert(!is_member(u1, who));
                        }
                    }
                } else {
                    lemma_room_untouched(v0, v1, f, i, fid, who);
                }
            } else {
                assert(v1 == v0);
            }
        },
        SessionOp::Broadcast { file_id: f, sender: s, message: m } => {
            lemma_broadcast_effect(v0, v1, f, s, m, fid);
            if has_room(v0, f) {
                let i = choose|i: int| 0 <= i < v0.len() && v0[i].file_id == f;
                assert forall|k: int|
                    0 <= k < v0.len() && k != i implies #[trigger] v0[k].file_id != f by {}
                let u0 = v0[i].users;
                let u1 = v1[i].users;
                assert(user_broadcast(u0, u1, s, m));
                lemma_user_broadcast_props(u0, u1, s, m);
                if f == fid {
                    let c0 = choose|c: int| 0 <= c < v0.len() && v0[c].file_id == fid;
                    assert(c0 == i);
                    assert(room_at(v0, fid) == u0);
                    assert(v1[i].file_id == fid);
                    let c1 = choose|c: int| 0 <= c < v1.len() && v1[c].file_id == fid;
                    assert(v0[c1].file_id == fid);
                    assert(c1 == i);
                    assert(room_at(v1, fid) == u1);
                    if is_member(u0, who) {
                        if s != who {
                            assert(queue_of(u1, who) == queue_of(u0, who).push(m));
                        } else {
                            assert(queue_of(u1, who) == queue_of(u0, who));
                        }
                    } else {
                        assert(!is_member(u1, who));
                    }
                } else {
                    lemma_room_untouched(v0, v1, f, i, fid, who);
                }
            } else {
                assert(v1 == v0);
            }
        },
        SessionOp::Drain { file_id: f, name: n } => {
            lemma_drain_effect(v0, v1, f, n, fid);
            if has_room(v0, f) {
                let i = choose|i: int| 0 <= i < v0.len() && v0[i].file_id == f;
                assert forall|k: int|
                    0 <= k < v0.len() && k != i implies #[trigger] v0[k].file_id != f by {}
                let u0 = v0[i].users;
                let u1 = v1[i].users;
                assert(user_drained(u0, u1, n));
                lemma_user_drained_props(u0, u1, n);
                if f == fid {
                    let c0 = choose|c: int| 0 <= c < v0.len() && v0[c].file_id == fid;
                    assert(c0 == i);
                    assert(room_at(v0, fid) == u0);
                    assert(v1[i].file_id == fid);
                    let c1 = choose|c: int| 0 <= c < v1.len() && v1[c].file_id == fid;
                    assert(v0[c1].file_id == fid);
                    assert(c1 == i);
                    assert(room_at(v1, fid) == u1);
                    if n == who {
                        if is_member(u0, who) {
                            assert(is_member(u1, who));
                            assert(queue_of(u1, who) == Seq::<Seq<char>>::empty());
                        } else {
                            assert(!is_member(u1, who));
                        }
                    } else {
                        if is_member(u0, who) {
                            assert(is_member(u1, who) && queue_of(u1, who) == queue_of(u0, who));
                        } else {
                            assert(!is_member(u1, who));
                        }
                    }
                } else {
                    lemma_room_untouched(v0, v1, f, i, fid, who);
                }
            } else {
                assert(v1 == v0);
            }
        },
    }
}

/// Where only the room at index `i` — serving `f` — changed and `fid`
/// differs from `f`, the room for `fid` is exactly as it was.
proof fn lemma_room_untouched(
    v0: Seq<EntryView>,
    v1: Seq<EntryView>,
    f: int,
    i: int,
    fid: int,
    who: Seq<char>,
)
    requires
        reg_wf(v0),
        0 <= i < v0.len(),
        v0[i].file_id == f,
        v1.len() == v0.len(),
        forall|k: int| 0 <= k < v0.len() ==> #[trigger] v1[k].file_id == v0[k].file_id,
        forall|k: int| 0 <= k < v0.len() && k != i ==> #[trigger] v1[k].users == v0[k].users,
        fid != f,
    ensures
        queue_state(v1, fid, who) == queue_state(v0, fid, who),
{
    if has_room(v0, fid) {
        let j = choose|j: int| 0 <= j < v0.len() && v0[j].file_id == fid;
        assert(unique_room_ids(v0));
        assert forall|k: int|
            0 <= k < v0.len() && k != j implies #[trigger] v0[k].file_id != fid by {}
        assert(j != i);
        assert(v1[j].file_id == fid);
        assert(has_room(v1, fid));
        let j1 = choose|c: int| 0 <= c < v1.len() && v1[c].file_id == fid;
        assert(v0[j1].file_id == fid);
        assert(j1 == j);
        assert(v1[j].users == v0[j].users);
        assert(room_at(v1, fid) == room_at(v0, fid));
    } else {
        assert forall|k: int|
            0 <= k < v1.len() implies #[trigger] v1[k].file_id != fid by {}
        assert(!has_room(v1, fid));
    }
}


/// The inductive core of the membership law: from any well-formed start,
/// running `ops` carries a room's present names through `open_connections`.
proof fn lemma_history_general(states: Seq<Seq<EntryView>>, ops: Seq<SessionOp>, fid: int)
    requires
        states.len() == ops.len() + 1,
        reg_wf(states[0]),
        forall|k: int| 0 <= k < ops.len() ==> run_step(#[trigger] states[k], ops[k], states[k + 1]),
    ensures
        reg_wf(states[ops.len() as int]),
        has_room(states[ops.len() as int], fid) == (has_room(states[0], fid) || room_created(
            ops,
            fid,
        )),
        present_names(states[ops.len() as int], fid) == open_connections(
            present_names(states[0], fid),
            ops,
            fid,
        ),
    decreases ops.len(),
{
    if ops.len() == 0 {
        assert(!room_created(ops, fid));
        assert(open_connections(present_names(states[0], fid), ops, fid) == present_names(
            states[0],
            fid,
        ));
    } else {
        let op = ops[0];
        assert(run_step(states[0], op, states[1]));
        let ghost start = present_names(states[0], fid);
        let ghost mid = present_names(states[1], fid);
        match op {
            SessionOp::Join { file_id, name } => {
                lemma_join_effect(states[0], states[1], file_id, name, fid);
            },
            SessionOp::Leave { file_id, name } => {
                lemma_leave_effect(states[0], states[1], file_id, name, fid);
            },
            SessionOp::Broadcast { file_id, sender, message } => {
                lemma_broadcast_effect(states[0], states[1], file_id, sender, message, fid);
            },
            SessionOp::Drain { file_id, name } => {
                lemma_drain_effect(states[0], states[1], file_id, name, fid);
            },
        }
        let states2 = states.drop_first();
        let ops2 = ops.drop_first();
        assert(states2.len() == ops2.len() + 1);
        assert(states2[0] == states[1]);
        assert forall|k: int| 0 <= k < ops2.len() implies run_step(
            #[trigger] states2[k],
            ops2[k],
            states2[k + 1],
        ) by {
            assert(states2[k] == states[k + 1]);
            assert(ops2[k] == ops[k + 1]);
            assert(states2[k + 1] == states[k + 2]);
            assert(run_step(states[k + 1], ops[k + 1], states[k + 2]));
        };
        lemma_history_general(states2, ops2, fid);
        assert(states2[ops2.len() as int] == states[ops.len() as int]);
        assert(open_connections(start, ops, fid) == open_connections(mid, ops2, fid)) by {
            match op {
                SessionOp::Join { file_id, name } => {
                    if file_id == fid {
                        assert(mid == start.insert(name));
                    } else {
                        assert(mid == start);
                    }
                },
                SessionOp::Leave { file_id, name } => {
                    if file_id == fid {
                        assert(mid == start.remove(name));
                    } else {
                        assert(mid == start);
                    }
                },
                SessionOp::Broadcast { .. } => {
                    assert(mid == start);
                },
                SessionOp::Drain { .. } => {
                    assert(mid == start);
                },
            }
        };
        assert(room_created(ops, fid) == (is_join_for(op, fid) || room_created(ops2, fid))) by {
            if room_created(ops2, fid) {
                let k = choose|k: int| 0 <= k < ops2.len() && is_join_for(ops2[k], fid);
                assert(ops[k + 1] == ops2[k]);
                assert(is_join_for(ops[k + 1], fid));
                assert(room_created(ops, fid));
            }
            if is_join_for(op, fid) {
                assert(is_join_for(ops[0], fid));
                assert(room_created(ops, fid));
            }
            if room_created(ops, fid) {
                let k = choose|k: int| 0 <= k < ops.len() && is_join_for(ops[k], fid);
                if k > 0 {
                    assert(ops2[k - 1] == ops[k]);
                    assert(is_join_for(ops2[k - 1], fid));
                    assert(room_created(ops2, fid));
                }
            }
        };
    }
}

/// Law: for any sequence of joins, leaves, broadcasts and drains from the
/// empty registry, the membership of the room for `fid` equals exactly the
/// connections currently open for that file id — one opened by each join
/// under its name, closed again by the matching leave, touched by nothing
/// else — and the room exists exactly when some join has named it (rooms
/// are never deleted).
pub proof fn lemma_membership_equals_open_connections(
    states: Seq<Seq<EntryView>>,
    ops: Seq<SessionOp>,
    fid: int,
)
    requires
        states.len() == ops.len() + 1,
        states[0] == Seq::<EntryView>::empty(),
        forall|k: int| 0 <= k < ops.len() ==> run_step(#[trigger] states[k], ops[k], states[k + 1]),
    ensures
        reg_wf(states[ops.len() as int]),
        has_room(states[ops.len() as int], fid) == room_created(ops, fid),
        present_names(states[ops.len() as int], fid) == open_connections(
            Set::<Seq<char>>::empty(),
            ops,
            fid,
        ),
{
    assert(reg_wf(states[0]));
    assert(!has_room(states[0], fid));
    assert(present_names(states[0], fid) =~= Set::<Seq<char>>::empty());
    lemma_history_general(states, ops, fid);
}

/// The inductive core of the delivery law: from any well-formed start,
/// running `ops` carries one participant's queue through `queue_after`.
proof fn lemma_queue_history_general(
    states: Seq<Seq<EntryView>>,
    ops: Seq<SessionOp>,
    fid: int,
    who: Seq<char>,
)
    requires
        states.len() == ops.len() + 1,
        reg_wf(states[0]),
        forall|k: int| 0 <= k < ops.len() ==> run_step(#[trigger] states[k], ops[k], states[k + 1]),
    ensures
        reg_wf(states[ops.len() as int]),
        queue_state(states[ops.len() as int], fid, who) == queue_after(
            queue_state(states[0], fid, who),
            ops,
            fid,
            who,
        ),
    decreases ops.len(),
{
    if ops.len() == 0 {
    } else {
        let op = ops[0];
        assert(run_step(states[0], op, states[1]));
        lemma_queue_step(states[0], states[1], op, fid, who);
        let states2 = states.drop_first();
        let ops2 = ops.drop_first();
        assert(states2.len() == ops2.len() + 1);
        assert(states2[0] == states[1]);
        assert forall|k: int| 0 <= k < ops2.len() implies run_step(
            #[trigger] states2[k],
            ops2[k],
            states2[k + 1],
        ) by {
            assert(states2[k] == states[k + 1]);
            assert(ops2[k] == ops[k + 1]);
            assert(states2[k + 1] == states[k + 2]);
            assert(run_step(states[k + 1], ops[k + 1], states[k + 2]));
        };
        lemma_queue_history_general(states2, ops2, fid, who);
        assert(states2[ops2.len() as int] == states[ops.len() as int]);
        assert(queue_after(queue_state(states[0], fid, who), ops, fid, who) == queue_after(
            queue_state(states[1], fid, who),
            ops2,
            fid,
            who,
        ));
    }
}

/// Law: for any sequence of joins, leaves, broadcasts and drains from the
/// empty registry, the outbound queue of the participant joined under
/// `who` in the room for `fid` holds exactly the messages broadcast by the
/// other participants since `who` last joined or was last drained, in send
/// order; a broadcast of `who`'s own never lands in it, and it exists
/// exactly while `who` is connected.
pub proof fn lemma_queue_equals_history(
    states: Seq<Seq<EntryView>>,
    ops: Seq<SessionOp>,
    fid: int,
    who: Seq<char>,
)
    requires
        states.len() == ops.len() + 1,
        states[0] == Seq::<EntryView>::empty(),
        forall|k: int| 0 <= k < ops.len() ==> run_step(#[trigger] states[k], ops[k], states[k + 1]),
    ensures
        reg_wf(states[ops.len() as int]),
        queue_state(states[ops.len() as int], fid, who) == queue_after(
            None::<Seq<Seq<char>>>,
            ops,
            fid,
            who,
        ),
{
    assert(reg_wf(states[0]));
    assert(!has_room(states[0], fid));
    assert(queue_state(states[0], fid, who) is None);
    lemma_queue_history_general(states, ops, fid, who);
}

} // verus!
