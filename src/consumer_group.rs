use crate::error::Error;
use vstd::prelude::*;

verus! {

/// A client in a consumer group and the partitions it currently consumes.
pub struct GroupMember {
    pub client_id: u32,
    pub partitions: Vec<u32>,
    /// Position in `partitions` of the next partition to poll.
    pub cursor: usize,
}

/// Clients that share the partitions of a topic, each partition going to one member.
pub struct ConsumerGroup {
    pub id: u32,
    pub topic_id: u32,
    pub partitions_count: u32,
    pub members: Vec<GroupMember>,
}

/// How many partitions the member at position `i` receives: the earliest members take
/// the larger shares.
pub open spec fn share(p: nat, m: nat, i: nat) -> nat {
    if m == 0 {
        0
    } else if i < p % m {
        p / m + 1
    } else {
        p / m
    }
}

/// How many partitions go to the members before position `i`.
pub open spec fn block_start(p: nat, m: nat, i: nat) -> nat
    decreases i,
{
    if i == 0 {
        0
    } else {
        block_start(p, m, (i - 1) as nat) + share(p, m, (i - 1) as nat)
    }
}

/// The partitions of the member at position `i`: the next `share` ids in ascending order.
pub open spec fn block(p: nat, m: nat, i: nat) -> Seq<u32> {
    Seq::new(share(p, m, i), |k: int| (block_start(p, m, i) + k + 1) as u32)
}

impl ConsumerGroup {
    pub open spec fn member_ids(&self) -> Seq<u32> {
        self.members@.map_values(|mb: GroupMember| mb.client_id)
    }

    pub open spec fn assigned(&self, i: int) -> Seq<u32> {
        self.members@[i].partitions@
    }

    /// Some member consumes partition `x`.
    pub open spec fn is_assigned(&self, x: u32) -> bool {
        exists|i: int| 0 <= i < self.members@.len() && (#[trigger] self.assigned(i)).contains(x)
    }

    /// `after` is this group with the cursor of member `i` moved on by one partition.
    pub open spec fn advanced(&self, after: ConsumerGroup, i: int) -> bool {
        &&& after.id == self.id
        &&& after.topic_id == self.topic_id
        &&& after.partitions_count == self.partitions_count
        &&& after.members@.len() == self.members@.len()
        &&& forall|j: int|
            0 <= j < self.members@.len() && j != i ==> #[trigger] after.members@[j]
                == self.members@[j]
        &&& after.members@[i].client_id == self.members@[i].client_id
        &&& after.members@[i].partitions == self.members@[i].partitions
        &&& after.members@[i].cursor == (self.members@[i].cursor + 1) % (
        self.members@[i].partitions@.len() as int)
    }

    pub open spec fn wf(&self) -> bool {
        &&& forall|i: int|
            0 <= i < self.members@.len() ==> (#[trigger] self.members@[i]).partitions@ == block(
                self.partitions_count as nat,
                self.members@.len(),
                i as nat,
            )
        &&& forall|i: int|
            0 <= i < self.members@.len() ==> {
                let mb = #[trigger] self.members@[i];
                mb.cursor < mb.partitions@.len() || mb.cursor == 0
            }
        &&& forall|i: int, j: int|
            0 <= i < j < self.members@.len() ==> (#[trigger] self.members@[i]).client_id
                != (#[trigger] self.members@[j]).client_id
    }

    /// A group with no members.
    pub fn new(id: u32, topic_id: u32, partitions_count: u32) -> (r: ConsumerGroup)
        ensures
            r.wf(),
            r.id == id,
            r.topic_id == topic_id,
            r.partitions_count == partitions_count,
            r.members@.len() == 0,
    {
        ConsumerGroup { id, topic_id, partitions_count, members: Vec::new() }
    }

    /// The position of a client among the members, if it is one.
    pub fn find_member(&self, client_id: u32) -> (r: Option<usize>)
        ensures
            match r {
                Some(i) => i < self.members@.len() && self.members@[i as int].client_id == client_id,
                None => !self.member_ids().contains(client_id),
            },
    {
        let mut i: usize = 0;
        while i < self.members.len()
            invariant
                i <= self.members@.len(),
                forall|j: int| 0 <= j < i ==> (#[trigger] self.members@[j]).client_id != client_id,
            decreases self.members@.len() - i,
        {
            if self.members[i].client_id == client_id {
                return Some(i);
            }
            i = i + 1;
        }
        proof {
            if self.member_ids().contains(client_id) {
                let j = choose|j: int|
                    0 <= j < self.member_ids().len() && self.member_ids()[j] == client_id;
                assert(self.members@[j].client_id == client_id);
            }
        }
        None
    }

    /// Deals the partitions out again over the current members, in member order.
    fn rebalance(&mut self)
        requires
            forall|i: int, j: int|
                0 <= i < j < old(self).members@.len() ==> (#[trigger] old(self).members@[i]).client_id
                    != (#[trigger] old(self).members@[j]).client_id,
        ensures
            final(self).wf(),
            final(self).member_ids() == old(self).member_ids(),
            final(self).id == old(self).id,
            final(self).topic_id == old(self).topic_id,
            final(self).partitions_count == old(self).partitions_count,
    {
        let p = self.partitions_count;
        let m = self.members.len();
        let ghost pn = p as nat;
        let ghost mn = m as nat;
        proof {
            if m > 0 {
                lemma_blocks_cover(pn, mn);
            }
        }
        let mut members: Vec<GroupMember> = Vec::new();
        let mut start: u64 = 0;
        let mut i: usize = 0;
        while i < m
            invariant
                m == self.members@.len(),
                p == self.partitions_count,
                pn == p as nat,
                mn == m as nat,
                i <= m,
                m > 0 ==> block_start(pn, mn, mn) == pn,
                start as nat == block_start(pn, mn, i as nat),
                members@.len() == i,
                forall|j: int|
                    0 <= j < i ==> (#[trigger] members@[j]).partitions@ == block(pn, mn, j as nat)
                        && members@[j].cursor == 0 && members@[j].client_id
                        == self.members@[j].client_id,
            decreases m - i,
        {
            proof {
                lemma_block_start_monotone(pn, mn, (i + 1) as nat, mn);
            }
            let q: u64 = (p as u64) / (m as u64);
            let size: u64 = if (i as u64) < (p as u64) % (m as u64) {
                q + 1
            } else {
                q
            };
            assert(size as nat == share(pn, mn, i as nat));
            let mut assigned: Vec<u32> = Vec::new();
            let mut k: u64 = 0;
            while k < size
                invariant
                    k <= size,
                    start as nat + size as nat <= pn,
                    pn <= u32::MAX,
                    start as nat == block_start(pn, mn, i as nat),
                    size as nat == share(pn, mn, i as nat),
                    assigned@ == block(pn, mn, i as nat).take(k as int),
                decreases size - k,
            {
                assigned.push((start + k + 1) as u32);
                k = k + 1;
                assert(assigned@ =~= block(pn, mn, i as nat).take(k as int));
            }
            assert(assigned@ =~= block(pn, mn, i as nat));
            members.push(
                GroupMember { client_id: self.members[i].client_id, partitions: assigned, cursor: 0 },
            );
            start = start + size;
            i = i + 1;
        }
        let ghost old_ids = self.member_ids();
        self.members = members;
        assert(self.member_ids() =~= old_ids);
    }

    /// Adds a client to the group and deals the partitions out again; a client that is
    /// already a member stays where it is.
    pub fn join(&mut self, client_id: u32)
        requires
            old(self).wf(),
        ensures
            final(self).wf(),
            final(self).id == old(self).id,
            final(self).topic_id == old(self).topic_id,
            final(self).partitions_count == old(self).partitions_count,
            final(self).member_ids() == if old(self).member_ids().contains(client_id) {
                old(self).member_ids()
            } else {
                old(self).member_ids().push(client_id)
            },
    {
        if let Some(i) = self.find_member(client_id) {
            assert(self.member_ids()[i as int] == client_id);
            return;
        }
        let ghost old_ids = self.member_ids();
        self.members.push(GroupMember { client_id, partitions: Vec::new(), cursor: 0 });
        assert(self.member_ids() =~= old_ids.push(client_id));
        proof {
            assert forall|i: int, j: int|
                0 <= i < j < self.members@.len() implies (#[trigger] self.members@[i]).client_id
                != (#[trigger] self.members@[j]).client_id by {
                if j == self.members@.len() - 1 {
                    assert(old_ids[i] == self.members@[i].client_id);
                    assert(old_ids.contains(self.members@[i].client_id));
                }
            }
        }
        self.rebalance();
    }

    /// Removes a client from the group and deals the partitions out again.
    pub fn leave(&mut self, client_id: u32) -> (r: Result<(), Error>)
        requires
            old(self).wf(),
        ensures
            final(self).wf(),
            final(self).id == old(self).id,
            final(self).topic_id == old(self).topic_id,
            final(self).partitions_count == old(self).partitions_count,
            !final(self).member_ids().contains(client_id),
            if old(self).member_ids().contains(client_id) {
                r.is_ok() && final(self).member_ids() == old(self).member_ids().remove(
                    old(self).member_ids().index_of(client_id),
                )
            } else {
                r == Err::<(), Error>(
                    Error::ConsumerGroupMemberNotFound(client_id, old(self).id, old(self).topic_id),
                ) && final(self).member_ids() == old(self).member_ids()
            },
    {
        let found = self.find_member(client_id);
        match found {
            None => Err(Error::ConsumerGroupMemberNotFound(client_id, self.id, self.topic_id)),
            Some(i) => {
                let ghost old_ids = self.member_ids();
                let ghost old_members = self.members@;
                proof {
                    assert(old_ids[i as int] == client_id);
                    assert forall|j: int| 0 <= j < old_ids.len() && j != i implies old_ids[j]
                        != client_id by {
                        if j < i {
                            assert(old_members[j].client_id != old_members[i as int].client_id);
                        } else {
                            assert(old_members[i as int].client_id != old_members[j].client_id);
                        }
                    }
                    lemma_index_of_unique(old_ids, i as int, client_id);
                }
                self.members.remove(i);
                assert(self.member_ids() =~= old_ids.remove(i as int));
                proof {
                    let ids = self.member_ids();
                    assert forall|j: int| 0 <= j < ids.len() implies ids[j] != client_id by {
                        if j < i {
                            assert(ids[j] == old_ids[j]);
                        } else {
                            assert(ids[j] == old_ids[j + 1]);
                        }
                    }
                }
                proof {
                    assert forall|a: int, b: int|
                        0 <= a < b < self.members@.len() implies (
                        #[trigger] self.members@[a]).client_id != (
                        #[trigger] self.members@[b]).client_id by {
                        let oa = if a < i {
                            a
                        } else {
                            a + 1
                        };
                        let ob = if b < i {
                            b
                        } else {
                            b + 1
                        };
                        assert(self.members@[a] == old_members[oa]);
                        assert(self.members@[b] == old_members[ob]);
                    }
                }
                self.rebalance();
                Ok(())
            },
        }
    }

    /// The partition a member polls next, moving its cursor on; `None` when the member
    /// has no partitions.
    pub fn next_partition(&mut self, client_id: u32) -> (r: Result<Option<u32>, Error>)
        requires
            old(self).wf(),
        ensures
            final(self).wf(),
            final(self).member_ids() == old(self).member_ids(),
            forall|i: int|
                0 <= i < final(self).members@.len() ==> (#[trigger] final(self).members@[i]).partitions@
                    == old(self).members@[i].partitions@,
            final(self).id == old(self).id,
            final(self).topic_id == old(self).topic_id,
            final(self).partitions_count == old(self).partitions_count,
            !old(self).member_ids().contains(client_id) ==> r == Err::<Option<u32>, Error>(
                Error::ConsumerGroupMemberNotFound(client_id, old(self).id, old(self).topic_id),
            ) && *final(self) == *old(self),
            old(self).member_ids().contains(client_id) ==> {
                let i = old(self).member_ids().index_of(client_id);
                let mb = old(self).members@[i];
                if mb.partitions@.len() == 0 {
                    r == Ok::<Option<u32>, Error>(None) && *final(self) == *old(self)
                } else {
                    &&& r == Ok::<Option<u32>, Error>(Some(mb.partitions@[mb.cursor as int]))
                    &&& old(self).advanced(*final(self), i)
                    &&& final(self).members@[i].cursor == (mb.cursor + 1) % (
                    mb.partitions@.len() as int)
                }
            },
    {
        match self.find_member(client_id) {
            None => Err(Error::ConsumerGroupMemberNotFound(client_id, self.id, self.topic_id)),
            Some(i) => {
                let ghost old_ids = self.member_ids();
                proof {
                    assert(old_ids[i as int] == client_id);
                    assert forall|j: int| 0 <= j < old_ids.len() && j != i implies old_ids[j]
                        != client_id by {
                        if j < i {
                            assert(self.members@[j].client_id != self.members@[i as int].client_id);
                        } else {
                            assert(self.members@[i as int].client_id != self.members@[j].client_id);
                        }
                    }
                    lemma_index_of_unique(old_ids, i as int, client_id);
                }
                let len = self.members[i].partitions.len();
                if len == 0 {
                    return Ok(None);
                }
                let cursor = self.members[i].cursor;
                let partition = self.members[i].partitions[cursor];
                let ghost old_members = self.members@;
                let mut mb = self.members.remove(i);
                mb.cursor = (cursor + 1) % len;
                self.members.insert(i, mb);
                proof {
                    assert forall|j: int| 0 <= j < self.members@.len() && j != i implies #[trigger]
                        self.members@[j] == old_members[j] by {}
                    assert(self.member_ids() =~= old_ids);
                    assert forall|a: int, b: int|
                        0 <= a < b < self.members@.len() implies (
                        #[trigger] self.members@[a]).client_id != (
                        #[trigger] self.members@[b]).client_id by {
                        assert(self.members@[a].client_id == old_members[a].client_id);
                        assert(self.members@[b].client_id == old_members[b].client_id);
                    }
                }
                Ok(Some(partition))
            },
        }
    }
}

/// The position of a value that occurs in a sequence only once.
proof fn lemma_index_of_unique(s: Seq<u32>, i: int, v: u32)
    requires
        0 <= i < s.len(),
        s[i] == v,
        forall|j: int| 0 <= j < s.len() && j != i ==> s[j] != v,
    ensures
        s.contains(v),
        s.index_of(v) == i,
{
    assert(s.contains(v));
    let k = s.index_of(v);
    assert(s[k] == v);
}

/// Shares never shrink the running start.
pub proof fn lemma_block_start_monotone(p: nat, m: nat, i: nat, j: nat)
    requires
        i <= j,
    ensures
        block_start(p, m, i) <= block_start(p, m, j),
    decreases j - i,
{
    if i < j {
        lemma_block_start_monotone(p, m, i, (j - 1) as nat);
    }
}

/// The running start after `i` members, in closed form.
proof fn lemma_block_start_closed(p: nat, m: nat, i: nat)
    requires
        m > 0,
        i <= m,
    ensures
        block_start(p, m, i) == i * (p / m) + if i < p % m {
            i
        } else {
            p % m
        },
    decreases i,
{
    if i > 0 {
        lemma_block_start_closed(p, m, (i - 1) as nat);
        let q = p / m;
        assert(i * q == (i - 1) * q + q) by (nonlinear_arith)
            requires
                i >= 1,
        ;
        let r = p % m;
        let prev = (i - 1) as nat;
        assert(share(p, m, prev) == if prev < r {
            q + 1
        } else {
            q
        });
        assert(block_start(p, m, i) == block_start(p, m, prev) + share(p, m, prev));
        assert(block_start(p, m, prev) == prev * q + if prev < r {
            prev
        } else {
            r
        });
        assert(prev * q + q == i * q);
        if prev < r {
            assert(block_start(p, m, i) == i * q + i);
        } else {
            assert(block_start(p, m, i) == i * q + r);
        }
    } else {
        assert(0 * (p / m) == 0) by (nonlinear_arith);
    }
}

/// The shares of all members add up to the partition count.
pub proof fn lemma_blocks_cover(p: nat, m: nat)
    requires
        m > 0,
    ensures
        block_start(p, m, m) == p,
{
    lemma_block_start_closed(p, m, m);
    vstd::arithmetic::div_mod::lemma_fundamental_div_mod(p as int, m as int);
    assert(m * (p / m) == (p / m) * m) by (nonlinear_arith);
}

/// Some member's block holds partition `x` when `x` lies between the starts of `lo` and `hi`.
proof fn lemma_block_owner(p: nat, m: nat, lo: nat, hi: nat, x: nat) -> (i: nat)
    requires
        lo < hi,
        block_start(p, m, lo) < x <= block_start(p, m, hi),
    ensures
        lo <= i < hi,
        block_start(p, m, i) < x <= block_start(p, m, i) + share(p, m, i),
    decreases hi - lo,
{
    if x <= block_start(p, m, (hi - 1) as nat) {
        lemma_block_owner(p, m, lo, (hi - 1) as nat, x)
    } else {
        (hi - 1) as nat
    }
}

/// For any sequence of joins and leaves, while the group has members: every partition
/// `1..=P` is assigned to exactly one member, and the members' shares differ by at most one.
pub proof fn lemma_assignment_balanced(g: ConsumerGroup)
    requires
        g.wf(),
        g.members@.len() > 0,
    ensures
        forall|x: u32| 1 <= x <= g.partitions_count ==> #[trigger] g.is_assigned(x),
        forall|i: int, j: int, x: u32|
            #![trigger g.assigned(i).contains(x), g.assigned(j).contains(x)]
            0 <= i < g.members@.len() && 0 <= j < g.members@.len() && g.assigned(i).contains(x)
                && g.assigned(j).contains(x) ==> i == j,
        forall|x: u32, i: int|
            0 <= i < g.members@.len() && #[trigger] g.assigned(i).contains(x) ==> 1 <= x
                <= g.partitions_count,
        forall|i: int, j: int|
            0 <= i < g.members@.len() && 0 <= j < g.members@.len() ==> #[trigger] g.assigned(i).len()
                <= #[trigger] g.assigned(j).len() + 1,
{
    let p = g.partitions_count as nat;
    let m = g.members@.len();
    lemma_blocks_cover(p, m);
    assert forall|x: u32| 1 <= x <= g.partitions_count implies #[trigger] g.is_assigned(x) by {
        let i = lemma_block_owner(p, m, 0, m, x as nat);
        let k = x - block_start(p, m, i) - 1;
        lemma_block_start_monotone(p, m, i + 1, m);
        assert(g.assigned(i as int)[k] == x);
    }
    assert forall|x: u32, i: int|
        0 <= i < g.members@.len() && #[trigger] g.assigned(i).contains(x) implies 1 <= x
        <= g.partitions_count by {
        let k = choose|k: int| 0 <= k < g.assigned(i).len() && g.assigned(i)[k] == x;
        lemma_block_start_monotone(p, m, (i + 1) as nat, m);
    }
    assert forall|i: int, j: int, x: u32|
        #![trigger g.assigned(i).contains(x), g.assigned(j).contains(x)]
        0 <= i < g.members@.len() && 0 <= j < g.members@.len() && g.assigned(i).contains(x)
            && g.assigned(j).contains(x) implies i == j by {
        let a = choose|a: int| 0 <= a < g.assigned(i).len() && g.assigned(i)[a] == x;
        let b = choose|b: int| 0 <= b < g.assigned(j).len() && g.assigned(j)[b] == x;
        lemma_block_start_monotone(p, m, (i + 1) as nat, m);
        lemma_block_start_monotone(p, m, (j + 1) as nat, m);
        if i < j {
            lemma_block_start_monotone(p, m, (i + 1) as nat, j as nat);
        } else if j < i {
            lemma_block_start_monotone(p, m, (j + 1) as nat, i as nat);
        }
    }
}

} // verus!
