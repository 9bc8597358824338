//! The room: a named membership registry with message dispatch.
//!
//! All mutating operations take `&mut self`: in a concurrent setting the
//! caller wraps the room in one exclusive-access guard and holds it for the
//! full duration of each operation, which is exactly the linearization the
//! contracts below describe. Every contract relates the membership sequence
//! after an operation to the sequence before it, so any interleaving of
//! operations is governed by composing them.

use vstd::prelude::*;

use crate::membership::delivered_only_at;
use crate::membership::delivered_to_all;
use crate::membership::find_ref;
use crate::membership::lemma_find_ref;
use crate::membership::has_ref;
use crate::membership::ids_of;
use crate::membership::without_ref;
use crate::message::Message;
use crate::participant::Participant;

verus! {

/// A named group of participants that can receive broadcast or directed
/// messages. Membership is an ordered sequence of handles; joining the same
/// handle twice produces two entries, and removal is by reference identity.
pub struct Room<P> {
    name: String,
    members: Vec<P>,
}

impl<P: Participant> Room<P> {
    /// The room's display name.
    pub closed spec fn name_seq(&self) -> Seq<char> {
        self.name@
    }

    /// The current membership, in insertion order.
    pub closed spec fn member_seq(&self) -> Seq<P> {
        self.members@
    }

    /// The identities of the current members, in membership order.
    pub open spec fn member_ids(&self) -> Seq<u64> {
        ids_of(self.member_seq())
    }

    /// Construct an empty room with the given name.
    pub fn new(name: String) -> (r: Room<P>)
        ensures
            r.name_seq() == name@,
            r.member_seq() == Seq::<P>::empty(),
    {
        Room { name, members: Vec::new() }
    }

    /// Append `p` to the membership. Nothing is deduplicated: joining the
    /// same reference twice produces two entries, each delivered to by
    /// every later broadcast.
    pub fn join(&mut self, p: P)
        ensures
            final(self).member_seq() == old(self).member_seq().push(p),
            final(self).name_seq() == old(self).name_seq(),
    {
        self.members.push(p);
    }

    /// Remove every member that is the same reference as `p`, keeping the
    /// order of the remaining members. Leaving with a reference that is not
    /// a member is a no-op, not an error.
    pub fn leave(&mut self, p: &P)
        ensures
            final(self).member_seq() == without_ref(old(self).member_seq(), p.rid()),
            final(self).name_seq() == old(self).name_seq(),
    {
        let ghost orig: Seq<P> = self.members@;
        let mut kept: Vec<P> = Vec::new();
        while self.members.len() > 0
            invariant
                self.name@ == old(self).name@,
                self.members@ =~= orig.skip(orig.len() - self.members@.len()),
                kept@ == without_ref(orig.take(orig.len() - self.members@.len()), p.rid()),
                self.members@.len() <= orig.len(),
            decreases self.members@.len(),
        {
            let ghost done: int = orig.len() - self.members@.len();
            let q = self.members.remove(0);
            proof {
                assert(q == orig[done]);
                assert(self.members@ =~= orig.skip(done + 1));
                assert(orig.take(done + 1).drop_last() =~= orig.take(done));
                assert(orig.take(done + 1).last() == orig[done]);
            }
            if !q.same_ref(p) {
                kept.push(q);
            }
        }
        proof {
            assert(orig.take(orig.len() as int) =~= orig);
        }
        self.members = kept;
    }

    /// Deliver `m` to every current member, in membership order. Each
    /// member's inbox grows by exactly this one message; membership and
    /// identities are unchanged.
    pub fn broadcast(&mut self, m: &Message)
        ensures
            delivered_to_all(old(self).member_seq(), final(self).member_seq(), *m),
            final(self).name_seq() == old(self).name_seq(),
    {
        let ghost orig: Seq<P> = self.members@;
        let n: usize = self.members.len();
        let mut i: usize = 0;
        while i < n
            invariant
                i <= n,
                n == self.members@.len(),
                orig.len() == n as int,
                self.name@ == old(self).name@,
                forall|j: int| i <= j < n ==> self.members@[j] == orig[j],
                forall|j: int| 0 <= j < i ==> (#[trigger] self.members@[j]).inbox() == orig[j].inbox().push(*m),
                forall|j: int| 0 <= j < i ==> (#[trigger] self.members@[j]).sid() == orig[j].sid(),
                forall|j: int| 0 <= j < i ==> (#[trigger] self.members@[j]).rid() == orig[j].rid(),
            decreases n - i,
        {
            let ghost before: Seq<P> = self.members@;
            let mut q = self.members.remove(i);
            q.receive(m);
            self.members.insert(i, q);
            proof {
                assert(self.members@ =~= before.update(i as int, q));
            }
            i = i + 1;
        }
    }

    /// Deliver `m` to the first current member that is the same reference
    /// as `to`, if there is one; a send to a reference that is not a member
    /// delivers nothing. At most one member receives the message, however
    /// many members share `to`'s identity under other references.
    pub fn send(&mut self, m: &Message, to: &P)
        ensures
            final(self).name_seq() == old(self).name_seq(),
            !has_ref(old(self).member_seq(), to.rid()) ==> final(self).member_seq() == old(
                self,
            ).member_seq(),
            has_ref(old(self).member_seq(), to.rid()) ==> delivered_only_at(
                old(self).member_seq(),
                final(self).member_seq(),
                find_ref(old(self).member_seq(), to.rid()),
                *m,
            ),
    {
        let ghost orig: Seq<P> = self.members@;
        let n: usize = self.members.len();
        let mut i: usize = 0;
        while i < n
            invariant
                i <= n,
                self.name@ == old(self).name@,
                self.members@ == orig,
                orig == old(self).member_seq(),
                n == orig.len(),
                forall|j: int| 0 <= j < i ==> (#[trigger] orig[j]).rid() != to.rid(),
            decreases n - i,
        {
            if self.members[i].same_ref(to) {
                let mut q = self.members.remove(i);
                q.receive(m);
                self.members.insert(i, q);
                proof {
                    assert(has_ref(orig, to.rid()));
                    lemma_find_ref(orig, to.rid());
                    assert(find_ref(orig, to.rid()) == i as int);
                    assert(self.members@ =~= orig.update(i as int, q));
                }
                return;
            }
            i = i + 1;
        }
        proof {
            assert(!has_ref(orig, to.rid()));
        }
    }

    /// The room's display name.
    pub fn get_name(&self) -> (r: &str)
        ensures
            r@ == self.name_seq(),
    {
        self.name.as_str()
    }

    /// The member at position `i` of the membership order, if any.
    pub fn member_at(&self, i: usize) -> (r: Option<&P>)
        ensures
            i < self.member_seq().len() ==> (r matches Some(p) && *p == self.member_seq()[i as int]),
            i >= self.member_seq().len() ==> r is None,
    {
        if i < self.members.len() {
            Some(&self.members[i])
        } else {
            None
        }
    }

    /// A snapshot of every current member's identity, in membership order.
    pub fn all_student_ids(&self) -> (r: Vec<u64>)
        ensures
            r@ == self.member_ids(),
    {
        let mut ids: Vec<u64> = Vec::new();
        let n: usize = self.members.len();
        let mut i: usize = 0;
        while i < n
            invariant
                i <= n,
                n == self.members.len(),
                ids@.len() == i as int,
                forall|j: int| 0 <= j < i ==> ids@[j] == self.members@[j].sid(),
            decreases n - i,
        {
            ids.push(self.members[i].student_id());
            i = i + 1;
        }
        proof {
            assert(ids@ =~= ids_of(self.member_seq()));
        }
        ids
    }
}

} // verus!
