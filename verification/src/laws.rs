//! Presence laws of the coordinator, proved over the command transitions
//! that `handle_connect` and `handle_disconnect` are specified by.

use vstd::prelude::*;
use crate::broadcaster::connect_step;
use crate::broadcaster::disconnect_step;
use crate::broadcaster::lemma_disconnect_step_wf;
use crate::frames::FrameV;
use crate::registry::GroupV;
use crate::registry::has_user;
use crate::registry::keeps_id;
use crate::registry::lemma_filter_identity;
use crate::registry::lemma_filter_wf;
use crate::registry::lemma_user_index_is;
use crate::registry::reg_wf;
use crate::registry::subs_of;
use crate::registry::user_index;
use crate::session::SubV;

verus! {

/// A user's first connection announces exactly one `Joined`; a second
/// connection by the same user announces nothing.
pub proof fn lemma_joined_once_per_user(r: Seq<GroupV>, c1: SubV, c2: SubV)
    requires
        reg_wf(r),
        !has_user(r, c1.user_id),
        c2.user_id == c1.user_id,
    ensures
        connect_step(r, c1).1 == Some(FrameV::Joined { user_id: c1.user_id, name: c1.name }),
        connect_step(connect_step(r, c1).0, c2).1 is None,
{
    let r1 = connect_step(r, c1).0;
    assert(r1[r.len() as int] == GroupV { user_id: c1.user_id, subs: seq![c1] });
    assert(has_user(r1, c2.user_id));
}

/// Unsubscribing one of a user's two live connections announces nothing;
/// unsubscribing the remaining one then announces exactly one `Left`.
pub proof fn lemma_left_only_on_last_disconnect(
    r: Seq<GroupV>,
    uid: int,
    c1: SubV,
    c2: SubV,
    n1: Seq<char>,
    n2: Seq<char>,
)
    requires
        reg_wf(r),
        has_user(r, uid),
        subs_of(r, uid) == seq![c1, c2],
        c1.id != c2.id,
    ensures
        disconnect_step(r, uid, n1, c1.id).1 is None,
        disconnect_step(disconnect_step(r, uid, n1, c1.id).0, uid, n2, c2.id).1 == Some(
            FrameV::Left { user_id: uid, name: n2 },
        ),
{
    reveal_with_fuel(Seq::filter, 4);
    let i = user_index(r, uid);
    assert(0 <= i < r.len() && r[i].user_id == uid);
    lemma_user_index_is(r, uid, i);
    let s = seq![c1, c2];
    let drop_first = keeps_id(c1.id);
    assert(s.drop_last() =~= seq![c1]);
    assert(seq![c1].drop_last() =~= Seq::<SubV>::empty());
    assert(Seq::<SubV>::empty().filter(drop_first) =~= Seq::<SubV>::empty());
    assert(!drop_first(c1));
    assert(seq![c1].filter(drop_first) =~= Seq::<SubV>::empty());
    assert(drop_first(c2));
    assert(s.filter(drop_first) =~= seq![c2]);
    let r1 = disconnect_step(r, uid, n1, c1.id).0;
    assert(r1 == r.update(i, GroupV { user_id: r[i].user_id, subs: seq![c2] }));
    lemma_disconnect_step_wf(r, uid, n1, c1.id);
    assert(r1[i].user_id == uid);
    lemma_user_index_is(r1, uid, i);
    let drop_second = keeps_id(c2.id);
    assert(!drop_second(c2));
    assert(seq![c2].drop_last() =~= Seq::<SubV>::empty());
    assert(seq![c2].filter(drop_second) =~= Seq::<SubV>::empty());
}

/// Unsubscribe is idempotent: repeating an Unsubscribe that already took
/// effect (or never matched) changes nothing and announces nothing.
pub proof fn lemma_disconnect_idempotent(r: Seq<GroupV>, uid: int, name: Seq<char>, sid: int)
    requires
        reg_wf(r),
    ensures
        disconnect_step(disconnect_step(r, uid, name, sid).0, uid, name, sid).0
            == disconnect_step(r, uid, name, sid).0,
        disconnect_step(disconnect_step(r, uid, name, sid).0, uid, name, sid).1 is None,
{
    let r1 = disconnect_step(r, uid, name, sid).0;
    if !has_user(r, uid) {
    } else {
        let i = user_index(r, uid);
        assert(0 <= i < r.len() && r[i].user_id == uid);
        lemma_user_index_is(r, uid, i);
        let kept = r[i].subs.filter(keeps_id(sid));
        lemma_filter_wf(r[i].subs, sid, uid);
        if kept.len() == 0 {
            assert forall|a: int| 0 <= a < r1.len() implies (#[trigger] r1[a]).user_id != uid by {
                if a < i {
                    assert(r1[a] == r[a]);
                } else {
                    assert(r1[a] == r[a + 1]);
                }
            }
            assert(!has_user(r1, uid));
        } else {
            lemma_disconnect_step_wf(r, uid, name, sid);
            assert(r1[i].user_id == uid);
            lemma_user_index_is(r1, uid, i);
            assert(r1[i].subs == kept);
            assert forall|k: int| 0 <= k < kept.len() implies keeps_id(sid)(#[trigger] kept[k]) by {
                assert(kept[k].id != sid);
            }
            lemma_filter_identity(kept, keeps_id(sid));
            assert(disconnect_step(r1, uid, name, sid).0 == r1.update(
                i,
                GroupV { user_id: r1[i].user_id, subs: kept },
            ));
            assert(r1.update(i, GroupV { user_id: r1[i].user_id, subs: kept }) =~= r1);
        }
    }
}

} // verus!
