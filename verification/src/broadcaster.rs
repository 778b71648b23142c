//! The broadcast coordinator: the single serialization point that applies
//! Subscribe, Unsubscribe and Publish commands to the registry and fans the
//! resulting event frame out to every subscriber.

use vstd::prelude::*;
use crate::frames::Connect;
use crate::frames::Disconnect;
use crate::frames::EventFrame;
use crate::frames::FrameV;
use crate::frames::Message;
use crate::frames::PersistError;
use crate::frames::SendMessage;
use crate::frames::cmds_view;
use crate::frames::evict_cmd;
use crate::registry::GroupV;
use crate::registry::UserGroup;
use crate::registry::flatten_subs;
use crate::registry::group_wf;
use crate::registry::groups_view;
use crate::registry::has_user;
use crate::registry::keeps_id;
use crate::registry::lemma_filter_wf;
use crate::registry::lemma_flatten_take_all;
use crate::registry::lemma_flatten_take_le;
use crate::registry::lemma_flatten_take_step;
use crate::registry::lemma_evict_push;
use crate::registry::lemma_user_index_is;
use crate::registry::reg_wf;
use crate::registry::subs_of;
use crate::registry::subs_view;
use crate::registry::user_index;
use crate::registry::evict_view;
use crate::session::Session;
use crate::session::SubV;
use crate::sink::send_joined_frame;
use crate::sink::send_left_frame;
use crate::sink::send_message_frame;
use crate::sink::send_ping_frame;

verus! {

/// One fan-out: the frame that was emitted and, for each subscriber present
/// at dispatch time in registry order, whether the frame could be enqueued.
/// A failed enqueue is recorded and otherwise ignored; the liveness monitor
/// is what eventually evicts such a subscriber.
pub struct Delivery {
    pub frame: EventFrame,
    pub outcomes: Vec<bool>,
}

/// Registry and event after a Subscribe command: a user's further
/// connections join their group silently; a first connection appends a new
/// group and announces `Joined`.
pub open spec fn connect_step(r: Seq<GroupV>, s: SubV) -> (Seq<GroupV>, Option<FrameV>) {
    if has_user(r, s.user_id) {
        let i = user_index(r, s.user_id);
        (r.update(i, GroupV { user_id: r[i].user_id, subs: r[i].subs.push(s) }), None)
    } else {
        (
            r.push(GroupV { user_id: s.user_id, subs: seq![s] }),
            Some(FrameV::Joined { user_id: s.user_id, name: s.name }),
        )
    }
}

/// Registry and event after an Unsubscribe command: the matching connection
/// is dropped; `Left` is announced exactly when this removed the user's
/// last connection; an absent user or identifier is a no-op.
pub open spec fn disconnect_step(r: Seq<GroupV>, uid: int, name: Seq<char>, sid: int) -> (
    Seq<GroupV>,
    Option<FrameV>,
) {
    if !has_user(r, uid) {
        (r, None)
    } else {
        let i = user_index(r, uid);
        let kept = r[i].subs.filter(keeps_id(sid));
        if kept.len() == 0 {
            (r.remove(i), Some(FrameV::Left { user_id: uid, name }))
        } else {
            (r.update(i, GroupV { user_id: r[i].user_id, subs: kept }), None)
        }
    }
}

/// A Subscribe command preserves the registry invariant, provided the new
/// connection's identifier is not already held by that user.
pub proof fn lemma_connect_step_wf(r: Seq<GroupV>, s: SubV)
    requires
        reg_wf(r),
        forall|k: int|
            0 <= k < subs_of(r, s.user_id).len() ==> (#[trigger] subs_of(r, s.user_id)[k]).id
                != s.id,
    ensures
        reg_wf(connect_step(r, s).0),
{
    let r2 = connect_step(r, s).0;
    if has_user(r, s.user_id) {
        let i = user_index(r, s.user_id);
        assert(0 <= i < r.len() && r[i].user_id == s.user_id);
        lemma_user_index_is(r, s.user_id, i);
        let g2 = GroupV { user_id: r[i].user_id, subs: r[i].subs.push(s) };
        assert(group_wf(r[i]));
        assert forall|a: int| 0 <= a < r2.len() implies group_wf(#[trigger] r2[a]) by {
            if a == i {
                assert(r2[a] == g2);
                assert forall|k: int| 0 <= k < g2.subs.len() implies (#[trigger] g2.subs[k]).user_id
                    == g2.user_id by {
                    if k < g2.subs.len() - 1 {
                        assert(g2.subs[k] == r[i].subs[k]);
                    } else {
                        assert(g2.subs[k] == s);
                    }
                }
                assert forall|k1: int, k2: int|
                    0 <= k1 < k2 < g2.subs.len() implies g2.subs[k1].id != g2.subs[k2].id by {
                    if k2 == g2.subs.len() - 1 {
                        assert(g2.subs[k1] == r[i].subs[k1]);
                        assert(g2.subs[k2] == s);
                        assert(subs_of(r, s.user_id)[k1].id != s.id);
                    } else {
                        assert(g2.subs[k1] == r[i].subs[k1] && g2.subs[k2] == r[i].subs[k2]);
                    }
                }
            } else {
                assert(r2[a] == r[a]);
            }
        }
        assert forall|a: int, b: int|
            0 <= a < b < r2.len() implies r2[a].user_id != r2[b].user_id by {
            assert(r2[a].user_id == r[a].user_id && r2[b].user_id == r[b].user_id);
        }
    } else {
        let g2 = GroupV { user_id: s.user_id, subs: seq![s] };
        assert(g2.subs.len() == 1 && g2.subs[0] == s);
        assert(group_wf(g2));
        assert forall|a: int| 0 <= a < r2.len() implies group_wf(#[trigger] r2[a]) by {
            if a < r.len() {
                assert(r2[a] == r[a]);
            } else {
                assert(r2[a] == g2);
            }
        }
        assert forall|a: int, b: int|
            0 <= a < b < r2.len() implies r2[a].user_id != r2[b].user_id by {
            if b < r.len() {
                assert(r2[a] == r[a] && r2[b] == r[b]);
            } else {
                assert(r2[b] == g2);
                assert(r2[a] == r[a]);
                assert(!(r[a].user_id == s.user_id));
            }
        }
    }
}

/// An Unsubscribe command preserves the registry invariant.
pub proof fn lemma_disconnect_step_wf(r: Seq<GroupV>, uid: int, name: Seq<char>, sid: int)
    requires
        reg_wf(r),
    ensures
        reg_wf(disconnect_step(r, uid, name, sid).0),
{
    let r2 = disconnect_step(r, uid, name, sid).0;
    if !has_user(r, uid) {
    } else {
        let i = user_index(r, uid);
        assert(0 <= i < r.len() && r[i].user_id == uid);
        assert(group_wf(r[i]));
        lemma_filter_wf(r[i].subs, sid, uid);
        let kept = r[i].subs.filter(keeps_id(sid));
        if kept.len() == 0 {
            assert forall|a: int| 0 <= a < r2.len() implies group_wf(#[trigger] r2[a]) by {
                if a < i {
                    assert(r2[a] == r[a]);
                } else {
                    assert(r2[a] == r[a + 1]);
                }
            }
            assert forall|a: int, b: int|
                0 <= a < b < r2.len() implies r2[a].user_id != r2[b].user_id by {
                if a < i {
                    assert(r2[a] == r[a]);
                } else {
                    assert(r2[a] == r[a + 1]);
                }
                if b < i {
                    assert(r2[b] == r[b]);
                } else {
                    assert(r2[b] == r[b + 1]);
                }
            }
        } else {
            let g2 = GroupV { user_id: r[i].user_id, subs: kept };
            assert(group_wf(g2));
            assert forall|a: int| 0 <= a < r2.len() implies group_wf(#[trigger] r2[a]) by {
                if a == i {
                    assert(r2[a] == g2);
                } else {
                    assert(r2[a] == r[a]);
                }
            }
            assert forall|a: int, b: int|
                0 <= a < b < r2.len() implies r2[a].user_id != r2[b].user_id by {
                assert(r2[a].user_id == r[a].user_id && r2[b].user_id == r[b].user_id);
            }
        }
    }
}

/// The single serialization point. Commands are applied one at a time; the
/// registry is mutated by no other path.
pub struct ChatBroadcaster {
    sessions: Vec<UserGroup>,
}

impl View for ChatBroadcaster {
    type V = Seq<GroupV>;

    closed spec fn view(&self) -> Seq<GroupV> {
        groups_view(self.sessions@)
    }
}

impl ChatBroadcaster {
    /// A coordinator with no subscribers.
    pub fn new() -> (b: ChatBroadcaster)
        ensures
            b@ == Seq::<GroupV>::empty(),
            reg_wf(b@),
    {
        let b = ChatBroadcaster { sessions: Vec::new() };
        proof {
            assert(b@ =~= Seq::<GroupV>::empty());
        }
        b
    }

    fn find_user(sessions: &Vec<UserGroup>, user_id: usize) -> (r: Option<usize>)
        ensures
            match r {
                Some(i) => i < sessions@.len() && sessions@[i as int]@.user_id == user_id as int,
                None => forall|k: int|
                    0 <= k < sessions@.len() ==> (#[trigger] sessions@[k])@.user_id
                        != user_id as int,
            },
    {
        let n = sessions.len();
        let mut i: usize = 0;
        while i < n
            invariant
                n == sessions@.len(),
                i <= n,
                forall|k: int| 0 <= k < i ==> (#[trigger] sessions@[k])@.user_id != user_id as int,
            decreases n - i,
        {
            if sessions[i].user_id == user_id {
                return Some(i);
            }
            i += 1;
        }
        None
    }

    /// Pushes one frame to every subscriber's channel, best effort: a
    /// failed enqueue is recorded and skipped, never retried, and never
    /// stops delivery to the remaining subscribers. Returns one outcome per
    /// subscriber, in registry order.
    fn broadcast(&self, frame: &EventFrame) -> (outcomes: Vec<bool>)
        ensures
            outcomes@.len() == flatten_subs(self@).len(),
    {
        let mut outcomes: Vec<bool> = Vec::new();
        let n = self.sessions.len();
        let mut i: usize = 0;
        proof {
            assert(self@.take(0) =~= Seq::<GroupV>::empty());
        }
        while i < n
            invariant
                n == self@.len(),
                i <= n,
                outcomes@.len() == flatten_subs(self@.take(i as int)).len(),
            decreases n - i,
        {
            let m = self.sessions[i].subs.len();
            let mut j: usize = 0;
            while j < m
                invariant
                    n == self@.len(),
                    i < n,
                    m == self@[i as int].subs.len(),
                    j <= m,
                    outcomes@.len() == flatten_subs(self@.take(i as int)).len() + j,
                decreases m - j,
            {
                proof {
                    assert(self@[i as int] == self.sessions@[i as int]@);
                }
                let s = &self.sessions[i].subs[j];
                let ok = match frame {
                    EventFrame::Joined { user_id, name } => send_joined_frame(
                        &s.channel,
                        *user_id,
                        name.as_str(),
                    ),
                    EventFrame::Left { user_id, name } => send_left_frame(
                        &s.channel,
                        *user_id,
                        name.as_str(),
                    ),
                    EventFrame::MessageCreated { message } => {
                        let id_val: i32 = match message.id {
                            Some(v) => v,
                            None => 0,
                        };
                        send_message_frame(
                            &s.channel,
                            id_val,
                            message.user_id,
                            message.user_name.as_str(),
                            message.text.as_str(),
                            message.creation_date,
                        )
                    },
                    EventFrame::Heartbeat => send_ping_frame(&s.channel),
                };
                outcomes.push(ok);
                j += 1;
            }
            proof {
                lemma_flatten_take_step(self@, i as int);
            }
            i += 1;
        }
        proof {
            lemma_flatten_take_all(self@);
        }
        outcomes
    }

    /// Subscribe: a user's further connections join their group silently; a
    /// first connection announces `Joined` to everyone subscribed before it
    /// and is then added to the registry.
    pub fn handle_connect(&mut self, cmd: Connect) -> (d: Option<Delivery>)
        requires
            reg_wf(old(self)@),
            forall|k: int|
                0 <= k < subs_of(old(self)@, cmd.0@.user_id).len() ==> (#[trigger] subs_of(
                    old(self)@,
                    cmd.0@.user_id,
                )[k]).id != cmd.0@.id,
        ensures
            reg_wf(final(self)@),
            final(self)@ == connect_step(old(self)@, cmd.0@).0,
            ({
                let f = connect_step(old(self)@, cmd.0@).1;
                match d {
                    Some(del) => f == Some(del.frame@) && del.outcomes@.len() == flatten_subs(
                        old(self)@,
                    ).len(),
                    None => f is None,
                }
            }),
    {
        let Connect(session) = cmd;
        let uid = session.user_id;
        let ghost r0 = self@;
        let ghost sv = session@;
        proof {
            lemma_connect_step_wf(r0, sv);
        }
        match Self::find_user(&self.sessions, uid) {
            Some(i) => {
                proof {
                    assert(r0[i as int] == self.sessions@[i as int]@);
                    lemma_user_index_is(r0, sv.user_id, i as int);
                }
                let mut g = self.sessions.remove(i);
                g.subs.push(session);
                let ghost g2v = g@;
                self.sessions.insert(i, g);
                proof {
                    assert(g2v.subs =~= r0[i as int].subs.push(sv));
                    assert(g2v == GroupV {
                        user_id: r0[i as int].user_id,
                        subs: r0[i as int].subs.push(sv),
                    });
                    assert forall|k: int| 0 <= k < self@.len() implies self@[k] == r0.update(
                        i as int,
                        g2v,
                    )[k] by {
                        assert(self@[k] == self.sessions@[k]@);
                    }
                    assert(self@ =~= r0.update(i as int, g2v));
                }
                None
            },
            None => {
                proof {
                    assert forall|k: int|
                        0 <= k < r0.len() implies (#[trigger] r0[k]).user_id != sv.user_id by {
                        assert(r0[k] == self.sessions@[k]@);
                    }
                    assert(!has_user(r0, sv.user_id));
                }
                let frame = EventFrame::Joined { user_id: uid, name: session.name.clone() };
                let outcomes = self.broadcast(&frame);
                let mut subs: Vec<Session> = Vec::new();
                subs.push(session);
                self.sessions.push(UserGroup { user_id: uid, subs });
                proof {
                    let g2v = GroupV { user_id: sv.user_id, subs: seq![sv] };
                    assert(self.sessions@.last()@.subs =~= seq![sv]);
                    assert(self.sessions@.last()@ == g2v);
                    assert forall|k: int| 0 <= k < self@.len() implies self@[k] == r0.push(g2v)[k] by {
                        assert(self@[k] == self.sessions@[k]@);
                    }
                    assert(self@ =~= r0.push(g2v));
                    assert(frame@ == FrameV::Joined { user_id: sv.user_id, name: sv.name });
                }
                Some(Delivery { frame, outcomes })
            },
        }
    }

    /// Unsubscribe: drops the matching connection if present; announces
    /// `Left` exactly when this removed the user's last connection. An
    /// already-absent user or identifier is a no-op, not an error.
    pub fn handle_disconnect(&mut self, cmd: Disconnect) -> (d: Option<Delivery>)
        requires
            reg_wf(old(self)@),
        ensures
            reg_wf(final(self)@),
            final(self)@ == disconnect_step(old(self)@, cmd.0 as int, cmd.1@, cmd.2 as int).0,
            ({
                let f = disconnect_step(old(self)@, cmd.0 as int, cmd.1@, cmd.2 as int).1;
                match d {
                    Some(del) => f == Some(del.frame@) && del.outcomes@.len() == flatten_subs(
                        final(self)@,
                    ).len(),
                    None => f is None,
                }
            }),
    {
        let Disconnect(user_id, user_name, sid) = cmd;
        let ghost r0 = self@;
        let ghost uidg = user_id as int;
        let ghost sidg = sid as int;
        let ghost pred = keeps_id(sidg);
        proof {
            lemma_disconnect_step_wf(r0, uidg, user_name@, sidg);
        }
        match Self::find_user(&self.sessions, user_id) {
            None => {
                proof {
                    assert forall|k: int|
                        0 <= k < r0.len() implies (#[trigger] r0[k]).user_id != uidg by {
                        assert(r0[k] == self.sessions@[k]@);
                    }
                    assert(!has_user(r0, uidg));
                }
                None
            },
            Some(i) => {
                proof {
                    assert(r0[i as int] == self.sessions@[i as int]@);
                    lemma_user_index_is(r0, uidg, i as int);
                }
                let g = self.sessions.remove(i);
                let ghost gv = r0[i as int];
                let ghost total = gv.subs;
                let mut rest = g.subs;
                let mut kept: Vec<Session> = Vec::new();
                proof {
                    assert(subs_view(rest@) =~= total.skip(0));
                    assert(total.take(0) =~= Seq::<SubV>::empty());
                    reveal(Seq::filter);
                    assert(subs_view(kept@) =~= total.take(0).filter(pred));
                }
                while rest.len() > 0
                    invariant
                        total == gv.subs,
                        rest@.len() <= total.len(),
                        subs_view(rest@) == total.skip(total.len() - rest@.len()),
                        subs_view(kept@) == total.take(total.len() - rest@.len()).filter(pred),
                        pred == keeps_id(sidg),
                        sidg == sid as int,
                    decreases rest@.len(),
                {
                    let ghost tpre = total.len() - rest@.len();
                    let ghost rest0 = rest@;
                    proof {
                        assert(subs_view(rest0)[0] == rest0[0]@);
                        assert(subs_view(rest0)[0] == total.skip(tpre)[0]);
                        assert(total.skip(tpre)[0] == total[tpre]);
                    }
                    let s = rest.remove(0);
                    let ghost svv = s@;
                    proof {
                        assert(svv == total[tpre]);
                        assert(rest@ == rest0.remove(0));
                        assert forall|x: int| 0 <= x < rest@.len() implies subs_view(rest@)[x]
                            == total.skip(tpre + 1)[x] by {
                            assert(subs_view(rest@)[x] == rest@[x]@);
                            assert(rest@[x] == rest0[x + 1]);
                            assert(subs_view(rest0)[x + 1] == rest0[x + 1]@);
                            assert(subs_view(rest0)[x + 1] == total.skip(tpre)[x + 1]);
                            assert(total.skip(tpre)[x + 1] == total[tpre + 1 + x]);
                            assert(total.skip(tpre + 1)[x] == total[tpre + 1 + x]);
                        }
                        assert(subs_view(rest@) =~= total.skip(tpre + 1));
                        reveal(Seq::filter);
                        assert(total.take(tpre + 1).drop_last() =~= total.take(tpre));
                        assert(total.take(tpre + 1).last() == total[tpre]);
                    }
                    if s.id != sid {
                        kept.push(s);
                        proof {
                            assert(pred(svv));
                            assert(total.take(tpre + 1).filter(pred) == total.take(tpre).filter(
                                pred,
                            ).push(svv));
                            assert(subs_view(kept@) =~= total.take(tpre).filter(pred).push(svv));
                        }
                    } else {
                        proof {
                            assert(!pred(svv));
                            assert(total.take(tpre + 1).filter(pred) == total.take(tpre).filter(
                                pred,
                            ));
                        }
                    }
                }
                proof {
                    assert(total.take(total.len() as int) =~= total);
                    assert(subs_view(kept@) == total.filter(pred));
                }
                if kept.len() == 0 {
                    let frame = EventFrame::Left { user_id, name: user_name };
                    proof {
                        assert forall|k: int| 0 <= k < self@.len() implies self@[k] == r0.remove(
                            i as int,
                        )[k] by {
                            assert(self@[k] == self.sessions@[k]@);
                        }
                        assert(self@ =~= r0.remove(i as int));
                    }
                    let outcomes = self.broadcast(&frame);
                    Some(Delivery { frame, outcomes })
                } else {
                    let ghost keptv = subs_view(kept@);
                    self.sessions.insert(i, UserGroup { user_id, subs: kept });
                    proof {
                        let g2v = GroupV { user_id: gv.user_id, subs: keptv };
                        assert(self.sessions@[i as int]@ == g2v);
                        assert forall|k: int| 0 <= k < self@.len() implies self@[k] == r0.update(
                            i as int,
                            g2v,
                        )[k] by {
                            assert(self@[k] == self.sessions@[k]@);
                        }
                        assert(self@ =~= r0.update(i as int, g2v));
                    }
                    None
                }
            },
        }
    }

    /// Publish, after the message store has decided: a persisted message is
    /// announced to every current subscriber, carrying exactly what the
    /// store returned; a failed persistence is dropped — no broadcast, no
    /// retry. Neither outcome touches the registry.
    pub fn handle_send_message(&mut self, outcome: Result<Message, PersistError>) -> (d: Option<
        Delivery,
    >)
        requires
            reg_wf(old(self)@),
            outcome matches Ok(m) ==> m.id is Some,
        ensures
            reg_wf(final(self)@),
            final(self)@ == old(self)@,
            ({
                match outcome {
                    Ok(m) => d matches Some(del) && del.frame@ == (FrameV::MessageCreated {
                        message: m@,
                    }) && del.outcomes@.len() == flatten_subs(final(self)@).len(),
                    Err(_) => d is None,
                }
            }),
    {
        match outcome {
            Ok(message) => {
                let frame = EventFrame::MessageCreated { message };
                let outcomes = self.broadcast(&frame);
                Some(Delivery { frame, outcomes })
            },
            Err(_) => None,
        }
    }

    /// Turns per-subscriber probe outcomes (in registry order) into the
    /// Unsubscribe commands for exactly the subscribers whose probe failed.
    pub fn evictions(&self, alive: &Vec<bool>) -> (cmds: Vec<Disconnect>)
        requires
            reg_wf(self@),
            alive@.len() == flatten_subs(self@).len(),
        ensures
            cmds_view(cmds@) == evict_view(flatten_subs(self@), alive@),
    {
        let mut cmds: Vec<Disconnect> = Vec::new();
        let n = self.sessions.len();
        let alive_len = alive.len();
        let mut i: usize = 0;
        let mut k: usize = 0;
        proof {
            assert(self@.take(0) =~= Seq::<GroupV>::empty());
            assert(alive@.take(0) =~= Seq::<bool>::empty());
            assert(cmds_view(cmds@) =~= evict_view(
                flatten_subs(self@.take(0)),
                alive@.take(0),
            ));
        }
        while i < n
            invariant
                reg_wf(self@),
                alive@.len() == flatten_subs(self@).len(),
                n == self@.len(),
                i <= n,
                k == flatten_subs(self@.take(i as int)).len(),
                k <= alive@.len(),
                alive_len == alive@.len(),
                cmds_view(cmds@) == evict_view(flatten_subs(self@.take(i as int)), alive@.take(k as int)),
            decreases n - i,
        {
            let m = self.sessions[i].subs.len();
            proof {
                assert(self@[i as int] == self.sessions@[i as int]@);
                lemma_flatten_take_step(self@, i as int);
                lemma_flatten_take_le(self@, i as int + 1);
            }
            let mut j: usize = 0;
            while j < m
                invariant
                    reg_wf(self@),
                    alive@.len() == flatten_subs(self@).len(),
                    n == self@.len(),
                    i < n,
                    m == self@[i as int].subs.len(),
                    j <= m,
                    k == flatten_subs(self@.take(i as int)).len() + j,
                    flatten_subs(self@.take(i as int)).len() + m <= alive@.len(),
                    alive_len == alive@.len(),
                    cmds_view(cmds@) == evict_view(
                        flatten_subs(self@.take(i as int)) + self@[i as int].subs.take(j as int),
                        alive@.take(k as int),
                    ),
                decreases m - j,
            {
                let ghost partial = flatten_subs(self@.take(i as int)) + self@[i as int].subs.take(
                    j as int,
                );
                let ghost sv = self@[i as int].subs[j as int];
                proof {
                    assert(self@[i as int] == self.sessions@[i as int]@);
                    assert(partial.len() == k);
                    assert(group_wf(self@[i as int]));
                    assert(sv.user_id == self@[i as int].user_id);
                }
                let ok = alive[k];
                if !ok {
                    let s = &self.sessions[i].subs[j];
                    proof {
                        assert(s@ == sv);
                    }
                    let c = Disconnect(self.sessions[i].user_id, s.name.clone(), s.id);
                    proof {
                        assert(c@ == evict_cmd(sv));
                    }
                    cmds.push(c);
                    proof {
                        lemma_evict_push(partial, alive@.take(k as int), sv, false);
                        assert(cmds_view(cmds@) =~= evict_view(partial, alive@.take(k as int)).push(
                            evict_cmd(sv),
                        ));
                    }
                } else {
                    proof {
                        lemma_evict_push(partial, alive@.take(k as int), sv, true);
                    }
                }
                proof {
                    assert(partial.push(sv) =~= flatten_subs(self@.take(i as int)) + self@[i as int].subs.take(
                        j as int + 1,
                    ));
                    assert(alive@.take(k as int + 1) =~= alive@.take(k as int).push(
                        alive@[k as int],
                    ));
                }
                j += 1;
                k += 1;
            }
            proof {
                lemma_flatten_take_step(self@, i as int);
                assert(self@[i as int].subs.take(m as int) =~= self@[i as int].subs);
            }
            i += 1;
        }
        proof {
            lemma_flatten_take_all(self@);
            assert(alive@.take(k as int) =~= alive@);
            assert(self@.take(n as int) =~= self@);
        }
        cmds
    }

    /// A liveness tick: probes every subscriber's channel with a heartbeat
    /// frame and returns one Unsubscribe command per subscriber whose probe
    /// failed, to be fed back into the coordinator as ordinary commands.
    pub fn heartbeat_tick(&self) -> (cmds: Vec<Disconnect>)
        requires
            reg_wf(self@),
        ensures
            exists|alive: Seq<bool>|
                alive.len() == flatten_subs(self@).len() && cmds_view(cmds@) == evict_view(
                    flatten_subs(self@),
                    alive,
                ),
    {
        let frame = EventFrame::Heartbeat;
        let alive = self.broadcast(&frame);
        let cmds = self.evictions(&alive);
        proof {
            let al = alive@;
            assert(al.len() == flatten_subs(self@).len() && cmds_view(cmds@) == evict_view(
                flatten_subs(self@),
                al,
            ));
        }
        cmds
    }

    /// How many users currently hold at least one connection.
    pub fn user_count(&self) -> (n: usize)
        ensures
            n == self@.len(),
    {
        self.sessions.len()
    }

    /// How many connections `user_id` currently holds.
    pub fn connection_count(&self, user_id: usize) -> (n: usize)
        requires
            reg_wf(self@),
        ensures
            n == subs_of(self@, user_id as int).len(),
    {
        match Self::find_user(&self.sessions, user_id) {
            Some(i) => {
                proof {
                    assert(self@[i as int] == self.sessions@[i as int]@);
                    lemma_user_index_is(self@, user_id as int, i as int);
                }
                self.sessions[i].subs.len()
            },
            None => {
                proof {
                    assert forall|k: int|
                        0 <= k < self@.len() implies (#[trigger] self@[k]).user_id
                        != user_id as int by {
                        assert(self@[k] == self.sessions@[k]@);
                    }
                    assert(!has_user(self@, user_id as int));
                }
                0
            },
        }
    }

    /// Whether `user_id` currently holds the connection `session_id`.
    pub fn contains_session(&self, user_id: usize, session_id: u128) -> (b: bool)
        requires
            reg_wf(self@),
        ensures
            b == exists|k: int|
                0 <= k < subs_of(self@, user_id as int).len() && (#[trigger] subs_of(
                    self@,
                    user_id as int,
                )[k]).id == session_id as int,
    {
        match Self::find_user(&self.sessions, user_id) {
            Some(i) => {
                proof {
                    assert(self@[i as int] == self.sessions@[i as int]@);
                    lemma_user_index_is(self@, user_id as int, i as int);
                }
                let subs = &self.sessions[i].subs;
                let m = subs.len();
                let mut j: usize = 0;
                while j < m
                    invariant
                        m == subs@.len(),
                        j <= m,
                        subs_view(subs@) == subs_of(self@, user_id as int),
                        forall|k: int|
                            0 <= k < j ==> (#[trigger] subs_view(subs@)[k]).id != session_id as int,
                    decreases m - j,
                {
                    if subs[j].id == session_id {
                        proof {
                            assert(subs_view(subs@)[j as int].id == session_id as int);
                        }
                        return true;
                    }
                    j += 1;
                }
                false
            },
            None => {
                proof {
                    assert forall|k: int|
                        0 <= k < self@.len() implies (#[trigger] self@[k]).user_id
                        != user_id as int by {
                        assert(self@[k] == self.sessions@[k]@);
                    }
                    assert(!has_user(self@, user_id as int));
                }
                false
            },
        }
    }
}

impl Message {
    /// The row handed to the message store for a Publish command, before
    /// the store has assigned an id.
    pub fn pending(cmd: &SendMessage, creation_date: i64) -> (m: Message)
        requires
            cmd.1 <= i32::MAX as usize,
        ensures
            m@.id is None,
            m@.user_id == cmd.1 as int,
            m@.user_name == cmd.2@,
            m@.text == cmd.0@,
            m@.creation_date == creation_date as int,
    {
        Message {
            id: None,
            user_id: cmd.1 as i32,
            user_name: cmd.2.clone(),
            text: cmd.0.clone(),
            creation_date,
        }
    }
}

} // verus!
