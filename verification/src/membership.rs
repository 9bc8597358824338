//! The mathematical model of a room's membership.
//!
//! Membership is a sequence of participant handles in insertion order. The
//! spec functions here say what each room operation does to that sequence
//! and what a dispatch does to the members' inboxes; `room` proves its
//! executable operations against them.

use vstd::prelude::*;

use crate::message::Message;
use crate::participant::Participant;

verus! {

/// The identities of the members of `ms`, in membership order.
pub open spec fn ids_of<P: Participant>(ms: Seq<P>) -> Seq<u64> {
    ms.map_values(|p: P| p.sid())
}

/// Whether some member of `ms` has reference identity `r`.
pub open spec fn has_ref<P: Participant>(ms: Seq<P>, r: u64) -> bool {
    exists|j: int| 0 <= j < ms.len() && ms[j].rid() == r
}

/// The index of the first member of `ms` with reference identity `r`.
/// Meaningful only when `has_ref(ms, r)` holds; see `lemma_find_ref`.
pub open spec fn find_ref<P: Participant>(ms: Seq<P>, r: u64) -> int
    decreases ms.len(),
{
    if ms.len() == 0 {
        0
    } else if ms[0].rid() == r {
        0
    } else {
        1 + find_ref(ms.drop_first(), r)
    }
}

/// `ms` with every member of reference identity `r` removed, the order of
/// the remaining members kept.
pub open spec fn without_ref<P: Participant>(ms: Seq<P>, r: u64) -> Seq<P>
    decreases ms.len(),
{
    if ms.len() == 0 {
        ms
    } else {
        let kept = without_ref(ms.drop_last(), r);
        if ms.last().rid() == r {
            kept
        } else {
            kept.push(ms.last())
        }
    }
}

/// A broadcast's effect: `after` is `before` with every member's inbox
/// extended by exactly the one message `m`, identities and order unchanged.
pub open spec fn delivered_to_all<P: Participant>(before: Seq<P>, after: Seq<P>, m: Message) -> bool {
    &&& after.len() == before.len()
    &&& forall|i: int| 0 <= i < before.len() ==> (#[trigger] after[i]).inbox() == before[i].inbox().push(m)
    &&& forall|i: int| 0 <= i < before.len() ==> (#[trigger] after[i]).sid() == before[i].sid()
    &&& forall|i: int| 0 <= i < before.len() ==> (#[trigger] after[i]).rid() == before[i].rid()
}

/// A directed send's effect: `after` is `before` with the inbox of the one
/// member at index `k` extended by exactly the one message `m`, every other
/// member untouched.
pub open spec fn delivered_only_at<P: Participant>(
    before: Seq<P>,
    after: Seq<P>,
    k: int,
    m: Message,
) -> bool {
    &&& after.len() == before.len()
    &&& 0 <= k < before.len()
    &&& after[k].inbox() == before[k].inbox().push(m)
    &&& after[k].sid() == before[k].sid()
    &&& after[k].rid() == before[k].rid()
    &&& forall|j: int| 0 <= j < before.len() && j != k ==> after[j] == before[j]
}

/// One membership operation: a join carrying the joining handle, or a
/// leave carrying the reference identity it removes.
pub enum MemberOp<P> {
    Join(P),
    Leave(u64),
}

/// The membership after one operation, exactly as `Room::join` and
/// `Room::leave` ensure it.
pub open spec fn apply_op<P: Participant>(ms: Seq<P>, op: MemberOp<P>) -> Seq<P> {
    match op {
        MemberOp::Join(p) => ms.push(p),
        MemberOp::Leave(r) => without_ref(ms, r),
    }
}

/// The membership after a sequence of operations, applied oldest first.
pub open spec fn apply_ops<P: Participant>(ms: Seq<P>, ops: Seq<MemberOp<P>>) -> Seq<P>
    decreases ops.len(),
{
    if ops.len() == 0 {
        ms
    } else {
        apply_ops(apply_op(ms, ops[0]), ops.drop_first())
    }
}

/// Whether `ops` contains a leave for reference identity `r`.
pub open spec fn has_leave_for<P>(ops: Seq<MemberOp<P>>, r: u64) -> bool {
    exists|k: int| 0 <= k < ops.len() && ops[k] == MemberOp::<P>::Leave(r)
}

/// The handles that `ops` joins and never afterwards leaves, in join
/// order: the members such a history is expected to end with.
pub open spec fn surviving<P: Participant>(ops: Seq<MemberOp<P>>) -> Seq<P>
    decreases ops.len(),
{
    if ops.len() == 0 {
        Seq::<P>::empty()
    } else {
        let rest = ops.drop_first();
        match ops[0] {
            MemberOp::Join(p) => if has_leave_for(rest, p.rid()) {
                surviving(rest)
            } else {
                seq![p] + surviving(rest)
            },
            MemberOp::Leave(_) => surviving(rest),
        }
    }
}

/// When `r` occurs in `ms`, `find_ref` names the first occurrence.
pub proof fn lemma_find_ref<P: Participant>(ms: Seq<P>, r: u64)
    requires
        has_ref(ms, r),
    ensures
        0 <= find_ref(ms, r) < ms.len(),
        ms[find_ref(ms, r)].rid() == r,
        forall|j: int| 0 <= j < find_ref(ms, r) ==> ms[j].rid() != r,
    decreases ms.len(),
{
    if ms.len() == 0 {
    } else if ms[0].rid() == r {
    } else {
        let rest = ms.drop_first();
        assert(has_ref(rest, r)) by {
            let j = choose|j: int| 0 <= j < ms.len() && ms[j].rid() == r;
            assert(rest[j - 1].rid() == r);
        }
        lemma_find_ref(rest, r);
        assert forall|j: int| 0 <= j < find_ref(ms, r) implies ms[j].rid() != r by {
            if j > 0 {
                assert(rest[j - 1].rid() != r);
            }
        }
    }
}

proof fn lemma_apply_ops_push<P: Participant>(ms: Seq<P>, ops: Seq<MemberOp<P>>, op: MemberOp<P>)
    ensures
        apply_ops(ms, ops.push(op)) == apply_op(apply_ops(ms, ops), op),
    decreases ops.len(),
{
    if ops.len() == 0 {
        assert(ops.push(op)[0] == op);
        assert(ops.push(op).drop_first() =~= Seq::<MemberOp<P>>::empty());
        assert(apply_ops(apply_op(ms, op), Seq::<MemberOp<P>>::empty()) == apply_op(ms, op));
    } else {
        assert(ops.push(op)[0] == ops[0]);
        assert(ops.push(op).drop_first() =~= ops.drop_first().push(op));
        lemma_apply_ops_push(apply_op(ms, ops[0]), ops.drop_first(), op);
    }
}

proof fn lemma_has_leave_for_push<P>(ops: Seq<MemberOp<P>>, op: MemberOp<P>, r: u64)
    ensures
        has_leave_for(ops.push(op), r) == (has_leave_for(ops, r) || op == MemberOp::<P>::Leave(r)),
{
    if has_leave_for(ops, r) {
        let k = choose|k: int| 0 <= k < ops.len() && ops[k] == MemberOp::<P>::Leave(r);
        assert(ops.push(op)[k] == MemberOp::<P>::Leave(r));
    }
    if op == MemberOp::<P>::Leave(r) {
        assert(ops.push(op)[ops.len() as int] == op);
    }
    if has_leave_for(ops.push(op), r) && op != MemberOp::<P>::Leave(r) {
        let k = choose|k: int|
            0 <= k < ops.push(op).len() && ops.push(op)[k] == MemberOp::<P>::Leave(r);
        assert(ops[k] == MemberOp::<P>::Leave(r));
    }
}

proof fn lemma_without_ref_cons<P: Participant>(q: P, ms: Seq<P>, r: u64)
    ensures
        without_ref(seq![q] + ms, r) == (if q.rid() == r {
            without_ref(ms, r)
        } else {
            seq![q] + without_ref(ms, r)
        }),
    decreases ms.len(),
{
    let c = seq![q] + ms;
    if ms.len() == 0 {
        assert(c.drop_last() =~= Seq::<P>::empty());
        assert(c.last() == q);
        assert(without_ref(Seq::<P>::empty(), r) == Seq::<P>::empty());
        if q.rid() != r {
            assert(Seq::<P>::empty().push(q) =~= seq![q] + without_ref(ms, r));
        }
    } else {
        assert(c.drop_last() =~= seq![q] + ms.drop_last());
        assert(c.last() == ms.last());
        lemma_without_ref_cons(q, ms.drop_last(), r);
        assert(without_ref(ms, r) == (if ms.last().rid() == r {
            without_ref(ms.drop_last(), r)
        } else {
            without_ref(ms.drop_last(), r).push(ms.last())
        }));
        if q.rid() != r && ms.last().rid() != r {
            assert((seq![q] + without_ref(ms.drop_last(), r)).push(ms.last()) =~= seq![q]
                + without_ref(ms.drop_last(), r).push(ms.last()));
        }
    }
}

proof fn lemma_without_ref_absent<P: Participant>(ms: Seq<P>, r: u64)
    requires
        !has_ref(ms, r),
    ensures
        without_ref(ms, r) == ms,
    decreases ms.len(),
{
    if ms.len() > 0 {
        assert(!has_ref(ms.drop_last(), r)) by {
            if has_ref(ms.drop_last(), r) {
                let j = choose|j: int|
                    0 <= j < ms.drop_last().len() && ms.drop_last()[j].rid() == r;
                assert(ms[j].rid() == r);
            }
        }
        lemma_without_ref_absent(ms.drop_last(), r);
        assert(ms.last().rid() != r) by {
            if ms.last().rid() == r {
                assert(ms[ms.len() - 1].rid() == r);
            }
        }
        assert(ms.drop_last().push(ms.last()) =~= ms);
    }
}

proof fn lemma_surviving_push_join<P: Participant>(ops: Seq<MemberOp<P>>, p: P)
    ensures
        surviving(ops.push(MemberOp::<P>::Join(p))) == surviving(ops).push(p),
    decreases ops.len(),
{
    let j = MemberOp::<P>::Join(p);
    if ops.len() == 0 {
        assert(ops.push(j)[0] == j);
        assert(ops.push(j).drop_first() =~= Seq::<MemberOp<P>>::empty());
        assert(seq![p] + surviving(Seq::<MemberOp<P>>::empty()) =~= surviving(ops).push(p));
    } else {
        let rest = ops.drop_first();
        assert(ops.push(j)[0] == ops[0]);
        assert(ops.push(j).drop_first() =~= rest.push(j));
        lemma_surviving_push_join(rest, p);
        match ops[0] {
            MemberOp::Join(q) => {
                lemma_has_leave_for_push(rest, j, q.rid());
                if !has_leave_for(rest, q.rid()) {
                    assert(seq![q] + surviving(rest).push(p) =~= (seq![q] + surviving(
                        rest,
                    )).push(p));
                }
            },
            MemberOp::Leave(_) => {},
        }
    }
}

proof fn lemma_surviving_push_leave<P: Participant>(ops: Seq<MemberOp<P>>, r: u64)
    ensures
        surviving(ops.push(MemberOp::<P>::Leave(r))) == without_ref(surviving(ops), r),
    decreases ops.len(),
{
    let l = MemberOp::<P>::Leave(r);
    if ops.len() == 0 {
        assert(ops.push(l)[0] == l);
        assert(ops.push(l).drop_first() =~= Seq::<MemberOp<P>>::empty());
        assert(surviving(Seq::<MemberOp<P>>::empty()) == Seq::<P>::empty());
        assert(without_ref(Seq::<P>::empty(), r) == Seq::<P>::empty());
    } else {
        let rest = ops.drop_first();
        assert(ops.push(l)[0] == ops[0]);
        assert(ops.push(l).drop_first() =~= rest.push(l));
        lemma_surviving_push_leave(rest, r);
        match ops[0] {
            MemberOp::Join(q) => {
                lemma_has_leave_for_push(rest, l, q.rid());
                if !has_leave_for(rest, q.rid()) {
                    lemma_without_ref_cons(q, surviving(rest), r);
                }
            },
            MemberOp::Leave(_) => {},
        }
    }
}

/// After any sequence of join and leave operations applied to an empty
/// membership, the members are exactly the handles joined and not left
/// afterwards, in join order — so `all_student_ids` taken then reports
/// exactly the identities still joined-and-not-left, in insertion order.
pub proof fn lemma_membership_is_survivors<P: Participant>(ops: Seq<MemberOp<P>>)
    ensures
        apply_ops(Seq::<P>::empty(), ops) == surviving(ops),
        ids_of(apply_ops(Seq::<P>::empty(), ops)) == ids_of(surviving(ops)),
    decreases ops.len(),
{
    if ops.len() > 0 {
        let init = ops.drop_last();
        let op = ops.last();
        lemma_membership_is_survivors(init);
        assert(init.push(op) =~= ops);
        lemma_apply_ops_push(Seq::<P>::empty(), init, op);
        match op {
            MemberOp::Join(p) => lemma_surviving_push_join(init, p),
            MemberOp::Leave(r) => lemma_surviving_push_leave(init, r),
        }
    }
}

/// Joining a reference that is not currently a member and then
/// immediately leaving with that same reference returns the membership to
/// exactly what it was before the join: no residue.
pub proof fn lemma_join_then_leave_no_residue<P: Participant>(ms: Seq<P>, p: P)
    requires
        !has_ref(ms, p.rid()),
    ensures
        apply_op(apply_op(ms, MemberOp::<P>::Join(p)), MemberOp::<P>::Leave(p.rid())) == ms,
{
    let pushed = ms.push(p);
    assert(pushed.drop_last() =~= ms);
    assert(pushed.last() == p);
    lemma_without_ref_absent(ms, p.rid());
}

/// A run of join operations — in whatever order concurrent callers were
/// linearized — loses none of them: every joined handle ends up present,
/// after the members already there, and the member count grows by exactly
/// the number of joins.
pub proof fn lemma_joins_all_present<P: Participant>(ms: Seq<P>, ops: Seq<MemberOp<P>>)
    requires
        forall|k: int| 0 <= k < ops.len() ==> ops[k] is Join,
    ensures
        apply_ops(ms, ops) == ms + ops.map_values(|op: MemberOp<P>| op->Join_0),
        apply_ops(ms, ops).len() == ms.len() + ops.len(),
    decreases ops.len(),
{
    let joined = ops.map_values(|op: MemberOp<P>| op->Join_0);
    if ops.len() == 0 {
        assert(ms + joined =~= ms);
    } else {
        let rest = ops.drop_first();
        let p = ops[0]->Join_0;
        assert forall|k: int| 0 <= k < rest.len() implies rest[k] is Join by {
            assert(rest[k] == ops[k + 1]);
        }
        lemma_joins_all_present(ms.push(p), rest);
        assert(ms.push(p) + rest.map_values(|op: MemberOp<P>| op->Join_0) =~= ms + joined);
    }
}

} // verus!
