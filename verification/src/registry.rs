//! The subscriber registry: one group of live connections per user, and the
//! spec-level model the coordinator's contracts are stated over.

use vstd::prelude::*;
use crate::session::Session;
use crate::session::SubV;
use crate::frames::DisconnectV;
use crate::frames::evict_cmd;

verus! {

/// All live connections of one user. A group is present in the registry
/// only while it holds at least one connection.
pub struct UserGroup {
    pub user_id: usize,
    pub subs: Vec<Session>,
}

/// Mathematical image of a `UserGroup`.
#[verifier::ext_equal]
pub struct GroupV {
    pub user_id: int,
    pub subs: Seq<SubV>,
}

/// The images of a sequence of sessions.
pub open spec fn subs_view(s: Seq<Session>) -> Seq<SubV> {
    s.map_values(|x: Session| x@)
}

/// The images of a sequence of user groups.
pub open spec fn groups_view(s: Seq<UserGroup>) -> Seq<GroupV> {
    s.map_values(|g: UserGroup| g@)
}

impl View for UserGroup {
    type V = GroupV;

    open spec fn view(&self) -> GroupV {
        GroupV { user_id: self.user_id as int, subs: subs_view(self.subs@) }
    }
}

/// The predicate an Unsubscribe command filters a group with: keep every
/// connection whose identifier differs from the dropped one.
pub open spec fn keeps_id(sid: int) -> spec_fn(SubV) -> bool {
    |x: SubV| x.id != sid
}

/// Connection identifiers pairwise distinct within a sequence.
pub open spec fn ids_distinct(s: Seq<SubV>) -> bool {
    forall|k1: int, k2: int| 0 <= k1 < k2 < s.len() ==> s[k1].id != s[k2].id
}

/// A group is well formed when it is non-empty, every connection belongs to
/// the group's user, and connection identifiers are pairwise distinct.
pub open spec fn group_wf(g: GroupV) -> bool {
    &&& g.subs.len() > 0
    &&& (forall|k: int| 0 <= k < g.subs.len() ==> (#[trigger] g.subs[k]).user_id == g.user_id)
    &&& ids_distinct(g.subs)
}

/// Registry invariant: every group well formed (so a user is present
/// exactly while they hold a connection), user ids pairwise distinct.
pub open spec fn reg_wf(r: Seq<GroupV>) -> bool {
    &&& (forall|i: int| 0 <= i < r.len() ==> group_wf(#[trigger] r[i]))
    &&& (forall|i: int, j: int| 0 <= i < j < r.len() ==> r[i].user_id != r[j].user_id)
}

/// Whether some group belongs to `uid`.
pub open spec fn has_user(r: Seq<GroupV>, uid: int) -> bool {
    exists|i: int| 0 <= i < r.len() && (#[trigger] r[i]).user_id == uid
}

/// The index of `uid`'s group; under `reg_wf` it is unique.
pub open spec fn user_index(r: Seq<GroupV>, uid: int) -> int {
    choose|i: int| 0 <= i < r.len() && (#[trigger] r[i]).user_id == uid
}

/// The connections `uid` currently holds: empty when the user is absent.
pub open spec fn subs_of(r: Seq<GroupV>, uid: int) -> Seq<SubV> {
    if has_user(r, uid) {
        r[user_index(r, uid)].subs
    } else {
        Seq::empty()
    }
}

/// Under `reg_wf`, an index whose group belongs to `uid` is the index
/// `user_index` picks.
pub proof fn lemma_user_index_is(r: Seq<GroupV>, uid: int, i: int)
    requires
        reg_wf(r),
        0 <= i < r.len(),
        r[i].user_id == uid,
    ensures
        has_user(r, uid),
        user_index(r, uid) == i,
        subs_of(r, uid) == r[i].subs,
{
    assert(has_user(r, uid));
    let j = user_index(r, uid);
    assert(0 <= j < r.len() && r[j].user_id == uid);
    if i < j {
        assert(r[i].user_id != r[j].user_id);
    } else if j < i {
        assert(r[j].user_id != r[i].user_id);
    }
}

/// Every connection in the registry, in registry order.
pub open spec fn flatten_subs(r: Seq<GroupV>) -> Seq<SubV>
    decreases r.len(),
{
    if r.len() == 0 {
        Seq::empty()
    } else {
        flatten_subs(r.drop_last()) + r.last().subs
    }
}

/// Extending a prefix of the registry by one group appends that group's
/// connections to the flattened prefix.
pub proof fn lemma_flatten_take_step(r: Seq<GroupV>, i: int)
    requires
        0 <= i < r.len(),
    ensures
        flatten_subs(r.take(i + 1)) == flatten_subs(r.take(i)) + r[i].subs,
{
    assert(r.take(i + 1).drop_last() =~= r.take(i));
    assert(r.take(i + 1).last() == r[i]);
}

/// The whole registry is its own prefix.
pub proof fn lemma_flatten_take_all(r: Seq<GroupV>)
    ensures
        flatten_subs(r.take(r.len() as int)) == flatten_subs(r),
{
    assert(r.take(r.len() as int) =~= r);
}

/// A flattened prefix never holds more connections than the whole registry.
pub proof fn lemma_flatten_take_le(r: Seq<GroupV>, t: int)
    requires
        0 <= t <= r.len(),
    ensures
        flatten_subs(r.take(t)).len() <= flatten_subs(r).len(),
    decreases r.len() - t,
{
    if t == r.len() {
        lemma_flatten_take_all(r);
    } else {
        lemma_flatten_take_step(r, t);
        lemma_flatten_take_le(r, t + 1);
    }
}

/// The eviction commands a liveness tick issues, given the probe outcome of
/// each connection: one Unsubscribe per connection whose probe failed, in
/// registry order.
pub open spec fn evict_view(subs: Seq<SubV>, alive: Seq<bool>) -> Seq<DisconnectV>
    decreases subs.len(),
{
    if subs.len() == 0 {
        Seq::empty()
    } else {
        let rest = evict_view(subs.drop_last(), alive.drop_last());
        if alive[subs.len() - 1] {
            rest
        } else {
            rest.push(evict_cmd(subs.last()))
        }
    }
}

/// How one more probe outcome extends the eviction list.
pub proof fn lemma_evict_push(subs: Seq<SubV>, alive: Seq<bool>, s: SubV, b: bool)
    requires
        alive.len() == subs.len(),
    ensures
        evict_view(subs.push(s), alive.push(b)) == (if b {
            evict_view(subs, alive)
        } else {
            evict_view(subs, alive).push(evict_cmd(s))
        }),
{
    assert(subs.push(s).drop_last() =~= subs);
    assert(alive.push(b).drop_last() =~= alive);
    assert(subs.push(s).last() == s);
    assert(alive.push(b)[subs.push(s).len() - 1] == b);
}

/// A connection whose probe failed appears in the eviction list.
pub proof fn lemma_dead_is_evicted(subs: Seq<SubV>, alive: Seq<bool>, k: int)
    requires
        alive.len() == subs.len(),
        0 <= k < subs.len(),
        !alive[k],
    ensures
        evict_view(subs, alive).contains(evict_cmd(subs[k])),
    decreases subs.len(),
{
    let out = evict_view(subs, alive);
    let rest = evict_view(subs.drop_last(), alive.drop_last());
    if k == subs.len() - 1 {
        assert(out == rest.push(evict_cmd(subs.last())));
        assert(out[out.len() - 1] == evict_cmd(subs[k]));
    } else {
        lemma_dead_is_evicted(subs.drop_last(), alive.drop_last(), k);
        let j = choose|j: int| 0 <= j < rest.len() && rest[j] == evict_cmd(subs.drop_last()[k]);
        assert(subs.drop_last()[k] == subs[k]);
        if alive[subs.len() - 1] {
            assert(out[j] == evict_cmd(subs[k]));
        } else {
            assert(out[j] == evict_cmd(subs[k]));
        }
    }
}

/// Elements kept by a filter all occur in the original sequence.
pub proof fn lemma_filter_keeps(s: Seq<SubV>, pred: spec_fn(SubV) -> bool)
    ensures
        forall|k: int|
            0 <= k < s.filter(pred).len() ==> s.contains(#[trigger] s.filter(pred)[k]),
    decreases s.len(),
{
    reveal(Seq::filter);
    if s.len() == 0 {
    } else {
        lemma_filter_keeps(s.drop_last(), pred);
        let f = s.filter(pred);
        let rest = s.drop_last().filter(pred);
        assert forall|k: int| 0 <= k < f.len() implies s.contains(f[k]) by {
            if pred(s.last()) && k == rest.len() {
                assert(f[k] == s.last());
                assert(s[s.len() - 1] == s.last());
            } else {
                assert(f[k] == rest[k]);
                assert(s.drop_last().contains(rest[k]));
                let w = choose|w: int|
                    0 <= w < s.drop_last().len() && s.drop_last()[w] == rest[k];
                assert(s[w] == rest[k]);
            }
        }
    }
}

/// Filtering a well-formed group's connections by identifier keeps the
/// group's user and pairwise-distinct identifiers, and none of the kept
/// connections carries the dropped identifier.
pub proof fn lemma_filter_wf(s: Seq<SubV>, sid: int, uid: int)
    requires
        ids_distinct(s),
        forall|k: int| 0 <= k < s.len() ==> (#[trigger] s[k]).user_id == uid,
    ensures
        ({
            let f = s.filter(keeps_id(sid));
            &&& ids_distinct(f)
            &&& (forall|k: int| 0 <= k < f.len() ==> (#[trigger] f[k]).user_id == uid)
            &&& (forall|k: int| 0 <= k < f.len() ==> (#[trigger] f[k]).id != sid)
        }),
    decreases s.len(),
{
    reveal(Seq::filter);
    let pred = keeps_id(sid);
    let f = s.filter(pred);
    if s.len() == 0 {
    } else {
        assert forall|k: int| 0 <= k < s.drop_last().len() implies (#[trigger] s.drop_last()[k]).user_id
            == uid by {
            assert(s.drop_last()[k] == s[k]);
        }
        lemma_filter_wf(s.drop_last(), sid, uid);
        lemma_filter_keeps(s.drop_last(), pred);
        let rest = s.drop_last().filter(pred);
        if pred(s.last()) {
            assert(f == rest.push(s.last()));
            assert forall|k1: int, k2: int| 0 <= k1 < k2 < f.len() implies f[k1].id != f[k2].id by {
                if k2 == f.len() - 1 {
                    assert(f[k2] == s.last());
                    assert(f[k1] == rest[k1]);
                    assert(s.drop_last().contains(rest[k1]));
                    let w = choose|w: int|
                        0 <= w < s.drop_last().len() && s.drop_last()[w] == rest[k1];
                    assert(s[w] == rest[k1]);
                    assert(s[w].id != s[s.len() - 1].id);
                } else {
                    assert(f[k1] == rest[k1] && f[k2] == rest[k2]);
                }
            }
        } else {
            assert(f == rest);
        }
    }
}

/// Filtering removes nothing when every element satisfies the predicate.
pub proof fn lemma_filter_identity(s: Seq<SubV>, pred: spec_fn(SubV) -> bool)
    requires
        forall|k: int| 0 <= k < s.len() ==> pred(#[trigger] s[k]),
    ensures
        s.filter(pred) == s,
    decreases s.len(),
{
    reveal(Seq::filter);
    if s.len() == 0 {
        assert(s.filter(pred) =~= s);
    } else {
        assert forall|k: int| 0 <= k < s.drop_last().len() implies pred(
            #[trigger] s.drop_last()[k],
        ) by {
            assert(s.drop_last()[k] == s[k]);
        }
        lemma_filter_identity(s.drop_last(), pred);
        assert(pred(s[s.len() - 1]));
        assert(s.filter(pred) == s.drop_last().push(s.last()));
        assert(s.drop_last().push(s.last()) =~= s);
    }
}

} // verus!
