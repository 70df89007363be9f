//! The server-side room registry: which live session is subscribed to
//! which room.  The registry is pure bookkeeping from plain values to
//! plain values; the server's I/O loop owns it behind its lock, asks it
//! for fan-out plans, and reports dead write paths back to it.
//!
//! A room exists exactly as long as it has a subscriber, so sustained
//! churn cannot leak empty rooms.
use crate::codec::server_line;
use crate::codec_exec::encode_server;
use crate::codec_exec::str_eq;
use crate::msg::Server;
use crate::msg::ServerView;
use vstd::pervasive::unreached;
use vstd::prelude::*;
use vstd::string::StringExecFns;

verus! {

/// One room: its name and its subscribers' session identifiers.
struct Room {
    name: String,
    members: Vec<u64>,
}

/// The registry from room name to subscriber set.  Sessions are named by
/// caller-chosen identifiers; the caller owns each session's write path.
pub struct Broadcaster {
    rooms: Vec<Room>,
}

/// Membership over a plain sequence of rooms.
spec fn seq_in_room(rs: Seq<Room>, n: Seq<char>, s: u64) -> bool {
    exists|i: int| 0 <= i < rs.len() && rs[i].name@ == n && rs[i].members@.contains(s)
}

impl Broadcaster {
    /// Session `s` is currently subscribed to room `n`.  This relation is
    /// the registry's whole observable state: a post to `n` is delivered
    /// exactly to the sessions subscribed to it.
    pub closed spec fn in_room(self, n: Seq<char>, s: u64) -> bool {
        seq_in_room(self.rooms@, n, s)
    }

    /// The registry's invariant: room names are distinct, no subscriber
    /// is listed twice, and no room is empty.
    pub closed spec fn wf(self) -> bool {
        let rs = self.rooms@;
        &&& forall|i: int, j: int| 0 <= i < j < rs.len() ==> rs[i].name@ != rs[j].name@
        &&& forall|i: int| 0 <= i < rs.len() ==> (#[trigger] rs[i].members@).no_duplicates()
        &&& forall|i: int| 0 <= i < rs.len() ==> (#[trigger] rs[i].members@).len() > 0
    }

    /// An empty registry: nobody is subscribed to anything.
    pub fn new() -> (r: Broadcaster)
        ensures
            r.wf(),
            forall|n: Seq<char>, s: u64| !r.in_room(n, s),
    {
        let r = Broadcaster { rooms: Vec::new() };
        proof {
            assert(forall|n: Seq<char>, s: u64| !seq_in_room(r.rooms@, n, s));
        }
        r
    }

    fn find_room(&self, name: &str) -> (r: Option<usize>)
        ensures
            match r {
                Some(i) => i < self.rooms@.len() && self.rooms@[i as int].name@ == name@,
                None => forall|i: int|
                    0 <= i < self.rooms@.len() ==> self.rooms@[i].name@ != name@,
            },
    {
        let n = self.rooms.len();
        let mut i: usize = 0;
        while i < n
            invariant
                i <= n,
                n == self.rooms@.len(),
                forall|j: int| 0 <= j < i ==> self.rooms@[j].name@ != name@,
            decreases n - i,
        {
            if str_eq(self.rooms[i].name.as_str(), name) {
                return Some(i);
            }
            i = i + 1;
        }
        None
    }

    /// Subscribes session `sid` to room `name`, creating the room on its
    /// first join.  Joining a room the session is already in changes
    /// nothing: membership is a set.
    pub fn handle_join(&mut self, sid: u64, name: &str)
        requires
            old(self).wf(),
        ensures
            final(self).wf(),
            forall|n: Seq<char>, s: u64|
                final(self).in_room(n, s) <==> (old(self).in_room(n, s) || (n == name@ && s
                    == sid)),
    {
        let ghost rs0 = self.rooms@;
        match self.find_room(name) {
            Some(i) => {
                let mut room = self.rooms.remove(i);
                let already = contains_member(&room.members, sid);
                if !already {
                    room.members.push(sid);
                }
                let ghost mem1 = room.members@;
                self.rooms.insert(i, room);
                proof {
                    let rs1 = self.rooms@;
                    assert(rs1 =~= rs0.update(i as int, rs1[i as int]));
                    assert(rs1[i as int].name@ == name@);
                    if already {
                        assert(mem1 == rs0[i as int].members@);
                    } else {
                        assert(mem1 == rs0[i as int].members@.push(sid));
                    }
                    assert forall|n: Seq<char>, s: u64|
                        seq_in_room(rs1, n, s) <==> (seq_in_room(rs0, n, s) || (n == name@ && s
                            == sid)) by {
                        if seq_in_room(rs1, n, s) {
                            let j = choose|j: int|
                                0 <= j < rs1.len() && rs1[j].name@ == n && rs1[j].members@.contains(
                                    s,
                                );
                            if j != i {
                                assert(rs0[j] == rs1[j]);
                                assert(seq_in_room(rs0, n, s));
                            } else {
                                if !(n == name@ && s == sid) {
                                    let k = choose|k: int|
                                        0 <= k < mem1.len() && mem1[k] == s;
                                    assert(rs0[i as int].members@.contains(s));
                                    assert(seq_in_room(rs0, n, s));
                                }
                            }
                        }
                        if seq_in_room(rs0, n, s) {
                            let j = choose|j: int|
                                0 <= j < rs0.len() && rs0[j].name@ == n && rs0[j].members@.contains(
                                    s,
                                );
                            if j != i {
                                assert(rs1[j] == rs0[j]);
                                assert(seq_in_room(rs1, n, s));
                            } else {
                                let k = choose|k: int|
                                    0 <= k < rs0[i as int].members@.len() && rs0[
                                        i as int
                                    ].members@[k] == s;
                                assert(mem1[k] == s);
                                assert(mem1.contains(s));
                                assert(seq_in_room(rs1, n, s));
                            }
                        }
                        if n == name@ && s == sid {
                            if already {
                                assert(rs0[i as int].members@.contains(sid));
                            } else {
                                assert(mem1[mem1.len() - 1] == sid);
                                assert(mem1.contains(sid));
                            }
                            assert(seq_in_room(rs1, n, s));
                        }
                    }
                    assert forall|a: int, b: int| 0 <= a < b < rs1.len() implies rs1[a].name@
                        != rs1[b].name@ by {
                        assert(rs0[a].name@ != rs0[b].name@);
                    }
                    assert forall|a: int| 0 <= a < rs1.len() implies (#[trigger] rs1[a].members@)
                        .no_duplicates() && rs1[a].members@.len() > 0 by {
                        if a != i {
                            assert(rs1[a] == rs0[a]);
                        } else {
                            if !already {
                                assert(!rs0[i as int].members@.contains(sid));
                                assert forall|x: int, y: int|
                                    0 <= x < y < mem1.len() implies mem1[x] != mem1[y] by {
                                    if y < mem1.len() - 1 {
                                        assert(rs0[i as int].members@[x] != rs0[
                                            i as int
                                        ].members@[y]);
                                    } else {
                                        assert(rs0[i as int].members@.contains(mem1[x]));
                                    }
                                }
                            }
                        }
                    }
                }
            },
            None => {
                let mut members: Vec<u64> = Vec::new();
                members.push(sid);
                let room = Room { name: String::from_str(name), members };
                self.rooms.push(room);
                proof {
                    let rs1 = self.rooms@;
                    assert(rs1.len() == rs0.len() + 1);
                    assert(rs1[rs0.len() as int].name@ == name@);
                    assert(rs1[rs0.len() as int].members@ =~= seq![sid]);
                    assert(forall|j: int| 0 <= j < rs0.len() ==> rs1[j] == rs0[j]);
                    assert forall|n: Seq<char>, s: u64|
                        seq_in_room(rs1, n, s) <==> (seq_in_room(rs0, n, s) || (n == name@ && s
                            == sid)) by {
                        if seq_in_room(rs1, n, s) {
                            let j = choose|j: int|
                                0 <= j < rs1.len() && rs1[j].name@ == n && rs1[j].members@.contains(
                                    s,
                                );
                            if j < rs0.len() {
                                assert(seq_in_room(rs0, n, s));
                            } else {
                                assert(n == name@ && s == sid);
                            }
                        }
                        if seq_in_room(rs0, n, s) {
                            let j = choose|j: int|
                                0 <= j < rs0.len() && rs0[j].name@ == n && rs0[j].members@.contains(
                                    s,
                                );
                            assert(rs1[j] == rs0[j]);
                            assert(seq_in_room(rs1, n, s));
                        }
                        if n == name@ && s == sid {
                            assert(rs1[rs0.len() as int].members@[0] == sid);
                            assert(rs1[rs0.len() as int].members@.contains(sid));
                            assert(seq_in_room(rs1, n, s));
                        }
                    }
                    assert forall|a: int, b: int| 0 <= a < b < rs1.len() implies rs1[a].name@
                        != rs1[b].name@ by {
                        if b < rs0.len() {
                            assert(rs0[a].name@ != rs0[b].name@);
                        } else {
                            assert(rs0[a].name@ != name@);
                        }
                    }
                }
            },
        }
    }

    /// The fan-out plan for one post: the delivered record, encoded once
    /// to be shared by every recipient, and each subscriber of the room
    /// exactly once.  A room nobody has joined gives an empty plan, not
    /// an error.
    pub fn handle_post(&self, chat_name: &str, message: &str) -> (r: (String, Vec<u64>))
        requires
            self.wf(),
        ensures
            r.0@ == server_line(
                ServerView::Message { chat_name: chat_name@, message: message@ },
            ),
            r.1@.no_duplicates(),
            forall|s: u64| r.1@.contains(s) <==> self.in_room(chat_name@, s),
    {
        let record = encode_server(
            &Server::Message {
                chat_name: String::from_str(chat_name),
                message: String::from_str(message),
            },
        );
        let recipients = match self.find_room(chat_name) {
            Some(i) => {
                let r = copy_members(&self.rooms[i].members);
                proof {
                    assert forall|s: u64| r@.contains(s) <==> self.in_room(
                        chat_name@,
                        s,
                    ) by {
                        if r@.contains(s) {
                            assert(seq_in_room(self.rooms@, chat_name@, s));
                        }
                        if seq_in_room(self.rooms@, chat_name@, s) {
                            let j = choose|j: int|
                                0 <= j < self.rooms@.len() && self.rooms@[j].name@ == chat_name@
                                    && self.rooms@[j].members@.contains(s);
                            assert(j == i);
                        }
                    }
                }
                r
            },
            None => {
                let r: Vec<u64> = Vec::new();
                proof {
                    assert(forall|s: u64| !seq_in_room(self.rooms@, chat_name@, s));
                }
                r
            },
        };
        (record, recipients)
    }

    /// Removes a session from every room, as on disconnect or on a failed
    /// delivery to its write path; a room left empty is dropped.
    pub fn remove_session(&mut self, sid: u64)
        requires
            old(self).wf(),
        ensures
            final(self).wf(),
            forall|n: Seq<char>, s: u64|
                final(self).in_room(n, s) <==> (old(self).in_room(n, s) && s != sid),
    {
        let ghost rs0 = self.rooms@;
        let mut out: Vec<Room> = Vec::new();
        proof {
            assert(rs0.take(rs0.len() as int) =~= rs0);
            assert(rs0.skip(rs0.len() as int) =~= Seq::<Room>::empty());
        }
        while self.rooms.len() > 0
            invariant
                old(self).wf(),
                rs0 == old(self).rooms@,
                self.rooms@.len() <= rs0.len(),
                self.rooms@ == rs0.take(self.rooms@.len() as int),
                forall|n: Seq<char>, s: u64|
                    seq_in_room(out@, n, s) <==> (seq_in_room(
                        rs0.skip(self.rooms@.len() as int),
                        n,
                        s,
                    ) && s != sid),
                forall|a: int|
                    0 <= a < out@.len() ==> exists|j: int|
                        self.rooms@.len() <= j < rs0.len() && (#[trigger] out@[a].name@) == rs0[
                            j
                        ].name@,
                forall|a: int, b: int| 0 <= a < b < out@.len() ==> out@[a].name@ != out@[b].name@,
                forall|a: int|
                    0 <= a < out@.len() ==> (#[trigger] out@[a].members@).no_duplicates()
                        && out@[a].members@.len() > 0,
            decreases self.rooms@.len(),
        {
            let ghost k = self.rooms@.len() as int;
            let room = match self.rooms.pop() {
                Some(room) => room,
                None => {
                    proof {
                        assert(false);
                    }
                    unreached()
                },
            };
            proof {
                assert(room == rs0[k - 1]);
                assert(self.rooms@ =~= rs0.take(k - 1));
            }
            let filtered = filter_members(&room.members, sid);
            let ghost out_before = out@;
            if filtered.len() > 0 {
                let kept = Room { name: room.name, members: filtered };
                out.push(kept);
            }
            proof {
                let outv = out@;
                assert forall|n: Seq<char>, s: u64|
                    seq_in_room(outv, n, s) <==> (seq_in_room(rs0.skip(k - 1), n, s) && s
                        != sid) by {
                    if seq_in_room(outv, n, s) {
                        let a = choose|a: int|
                            0 <= a < outv.len() && outv[a].name@ == n && outv[a].members@.contains(
                                s,
                            );
                        if a < out_before.len() {
                            assert(seq_in_room(out_before, n, s));
                            let j = choose|j: int|
                                0 <= j < rs0.skip(k).len() && rs0.skip(k)[j].name@ == n && rs0.skip(
                                    k,
                                )[j].members@.contains(s);
                            assert(rs0.skip(k - 1)[j + 1] == rs0.skip(k)[j]);
                            assert(seq_in_room(rs0.skip(k - 1), n, s));
                        } else {
                            assert(outv[a].name@ == rs0[k - 1].name@);
                            assert(rs0[k - 1].members@.contains(s) && s != sid);
                            assert(rs0.skip(k - 1)[0] == rs0[k - 1]);
                            assert(seq_in_room(rs0.skip(k - 1), n, s));
                        }
                    }
                    if seq_in_room(rs0.skip(k - 1), n, s) && s != sid {
                        let j = choose|j: int|
                            0 <= j < rs0.skip(k - 1).len() && (#[trigger] rs0.skip(k - 1)[j]).name@
                                == n && rs0.skip(k - 1)[j].members@.contains(s);
                        if j == 0 {
                            assert(rs0[k - 1].members@.contains(s));
                            assert(filtered@.contains(s));
                            assert(outv[outv.len() - 1].name@ == n);
                            assert(seq_in_room(outv, n, s));
                        } else {
                            assert(rs0.skip(k)[j - 1] == rs0.skip(k - 1)[j]);
                            assert(seq_in_room(rs0.skip(k), n, s));
                            assert(seq_in_room(out_before, n, s));
                            let a = choose|a: int|
                                0 <= a < out_before.len() && out_before[a].name@ == n
                                    && out_before[a].members@.contains(s);
                            assert(outv[a] == out_before[a]);
                            assert(seq_in_room(outv, n, s));
                        }
                    }
                }
                assert forall|a: int|
                    0 <= a < outv.len() implies exists|j: int|
                        k - 1 <= j < rs0.len() && (#[trigger] outv[a].name@) == rs0[
                            j
                        ].name@ by {
                    if a < out_before.len() {
                        let j = choose|j: int|
                            k <= j < rs0.len() && out_before[a].name@ == rs0[j].name@;
                        assert(k - 1 <= j < rs0.len() && outv[a].name@ == rs0[j].name@);
                    } else {
                        assert(outv[a].name@ == rs0[k - 1].name@);
                    }
                }
                assert forall|a: int, b: int| 0 <= a < b < outv.len() implies outv[a].name@
                    != outv[b].name@ by {
                    if b == out_before.len() {
                        let j = choose|j: int|
                            k <= j < rs0.len() && out_before[a].name@ == rs0[j].name@;
                        assert(rs0[k - 1].name@ != rs0[j].name@);
                    }
                }
            }
        }
        self.rooms = out;
        proof {
            assert(rs0.skip(0) =~= rs0);
            assert forall|n: Seq<char>, s: u64|
                seq_in_room(self.rooms@, n, s) <==> (seq_in_room(rs0, n, s) && s != sid) by {
            }
        }
    }
}

/// Whether the session list holds `x`.
fn contains_member(v: &Vec<u64>, x: u64) -> (r: bool)
    ensures
        r == v@.contains(x),
{
    let n = v.len();
    let mut i: usize = 0;
    while i < n
        invariant
            i <= n,
            n == v@.len(),
            forall|j: int| 0 <= j < i ==> v@[j] != x,
        decreases n - i,
    {
        if v[i] == x {
            return true;
        }
        i = i + 1;
    }
    false
}

/// A copy of the session list.
fn copy_members(v: &Vec<u64>) -> (r: Vec<u64>)
    ensures
        r@ == v@,
{
    let n = v.len();
    let mut r: Vec<u64> = Vec::new();
    let mut i: usize = 0;
    while i < n
        invariant
            i <= n,
            n == v@.len(),
            r@ == v@.take(i as int),
        decreases n - i,
    {
        r.push(v[i]);
        proof {
            assert(v@.take(i + 1 as int) =~= v@.take(i as int).push(v@[i as int]));
        }
        i = i + 1;
    }
    proof {
        assert(v@.take(n as int) =~= v@);
    }
    r
}

/// The session list without `sid`.
fn filter_members(v: &Vec<u64>, sid: u64) -> (r: Vec<u64>)
    requires
        v@.no_duplicates(),
    ensures
        forall|x: u64| r@.contains(x) <==> (v@.contains(x) && x != sid),
        r@.no_duplicates(),
{
    let n = v.len();
    let mut r: Vec<u64> = Vec::new();
    let mut i: usize = 0;
    while i < n
        invariant
            i <= n,
            n == v@.len(),
            v@.no_duplicates(),
            forall|x: u64| r@.contains(x) <==> (v@.take(i as int).contains(x) && x != sid),
            r@.no_duplicates(),
        decreases n - i,
    {
        let x = v[i];
        if x != sid {
            let ghost rb = r@;
            r.push(x);
            proof {
                assert(!rb.contains(x)) by {
                    if rb.contains(x) {
                        assert(v@.take(i as int).contains(x));
                        let j = choose|j: int| 0 <= j < i && v@.take(i as int)[j] == x;
                        assert(v@[j] == v@[i as int]);
                    }
                }
                assert forall|a: int, b: int| 0 <= a < b < r@.len() implies r@[a] != r@[b] by {
                    if b == r@.len() - 1 {
                        assert(rb.contains(r@[a]));
                    }
                }
                assert forall|y: u64|
                    r@.contains(y) <==> (v@.take(i + 1 as int).contains(y) && y != sid) by {
                    if r@.contains(y) {
                        let a = choose|a: int| 0 <= a < r@.len() && r@[a] == y;
                        if a < rb.len() {
                            assert(rb.contains(y));
                            let j = choose|j: int| 0 <= j < i && v@.take(i as int)[j] == y;
                            assert(v@.take(i + 1 as int)[j] == y);
                        } else {
                            assert(y == x);
                            assert(v@.take(i + 1 as int)[i as int] == x);
                        }
                    }
                    if v@.take(i + 1 as int).contains(y) && y != sid {
                        let j = choose|j: int| 0 <= j <= i && (#[trigger] v@.take(i + 1 as int)[j]) == y;
                        if j < i {
                            assert(v@.take(i as int)[j] == y);
                            assert(rb.contains(y));
                            let a = choose|a: int| 0 <= a < rb.len() && rb[a] == y;
                            assert(r@[a] == y);
                        } else {
                            assert(r@[r@.len() - 1] == y);
                        }
                    }
                }
            }
        } else {
            proof {
                assert forall|y: u64|
                    r@.contains(y) <==> (v@.take(i + 1 as int).contains(y) && y != sid) by {
                    if r@.contains(y) {
                        assert(v@.take(i as int).contains(y));
                        let j = choose|j: int| 0 <= j < i && v@.take(i as int)[j] == y;
                        assert(v@.take(i + 1 as int)[j] == y);
                    }
                    if v@.take(i + 1 as int).contains(y) && y != sid {
                        let j = choose|j: int| 0 <= j <= i && (#[trigger] v@.take(i + 1 as int)[j]) == y;
                        if j < i {
                            assert(v@.take(i as int)[j] == y);
                        }
                    }
                }
            }
        }
        i = i + 1;
    }
    proof {
        assert(v@.take(n as int) =~= v@);
    }
    r
}

/// One join step: exactly the membership change [`Broadcaster::handle_join`]
/// promises.
pub open spec fn join_step(pre: Broadcaster, post: Broadcaster, name: Seq<char>, sid: u64) -> bool {
    forall|n: Seq<char>, s: u64| post.in_room(n, s) <==> (pre.in_room(n, s) || (n == name && s == sid))
}

/// One removal step: exactly the membership change
/// [`Broadcaster::remove_session`] promises.
pub open spec fn remove_step(pre: Broadcaster, post: Broadcaster, sid: u64) -> bool {
    forall|n: Seq<char>, s: u64| post.in_room(n, s) <==> (pre.in_room(n, s) && s != sid)
}

/// Joining a room the session is already in leaves every room's
/// membership exactly as it was, so a later post delivers no duplicate.
pub proof fn lemma_join_idempotent(
    b0: Broadcaster,
    b1: Broadcaster,
    b2: Broadcaster,
    name: Seq<char>,
    sid: u64,
)
    requires
        join_step(b0, b1, name, sid),
        join_step(b1, b2, name, sid),
    ensures
        forall|n: Seq<char>, s: u64| b2.in_room(n, s) <==> b1.in_room(n, s),
{
    assert(b1.in_room(name, sid));
}

/// A fan-out plan over a room nobody is in is empty: posting to such a
/// room is no error and delivers nothing.
pub proof fn lemma_empty_room_plan(b: Broadcaster, name: Seq<char>, plan: Seq<u64>)
    requires
        forall|s: u64| !b.in_room(name, s),
        forall|s: u64| plan.contains(s) <==> b.in_room(name, s),
    ensures
        plan.len() == 0,
{
    if plan.len() > 0 {
        assert(plan.contains(plan[0]));
    }
}

/// Removing one dead subscriber never touches another session's
/// membership: every other subscriber of every room still receives.
pub proof fn lemma_remove_isolates(
    b0: Broadcaster,
    b1: Broadcaster,
    sid: u64,
    n: Seq<char>,
    s: u64,
)
    requires
        remove_step(b0, b1, sid),
        s != sid,
    ensures
        b1.in_room(n, s) == b0.in_room(n, s),
{
}

} // verus!
