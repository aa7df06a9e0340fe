use crate::consumer_group::ConsumerGroup;
use crate::consumer_type::ConsumerType;
use crate::error::Error;
use crate::message::{views, Message, MessageView};
use crate::partition::{
    after_poll, append_error, appended, consumer_key, poll_result, AppendMessage, Partition,
};
use crate::poll::PollingKind;
use vstd::prelude::*;

verus! {

/// The longest name a topic or stream may have, in bytes.
pub const MAX_NAME_SIZE: usize = 255;

/// How a producer picks the partition of a batch.
#[derive(Debug, Clone, Copy, PartialEq, Eq, Structural)]
pub enum KeyKind {
    /// No key: the topic deals batches out to its partitions in turn.
    Balanced,
    /// The key is the partition id.
    PartitionId,
    /// The key is an entity id, mapped onto the partitions.
    EntityId,
}

impl KeyKind {
    pub open spec fn code(self) -> u8 {
        match self {
            KeyKind::Balanced => 0,
            KeyKind::PartitionId => 1,
            KeyKind::EntityId => 2,
        }
    }

    pub open spec fn of_code(code: u8) -> Option<KeyKind> {
        if code == 0 {
            Some(KeyKind::Balanced)
        } else if code == 1 {
            Some(KeyKind::PartitionId)
        } else if code == 2 {
            Some(KeyKind::EntityId)
        } else {
            None
        }
    }

    pub fn as_code(&self) -> (r: u8)
        ensures
            r == self.code(),
    {
        match self {
            KeyKind::Balanced => 0,
            KeyKind::PartitionId => 1,
            KeyKind::EntityId => 2,
        }
    }

    /// Unknown bytes are rejected as an invalid command.
    pub fn from_code(code: u8) -> (r: Result<KeyKind, Error>)
        ensures
            r == match KeyKind::of_code(code) {
                Some(k) => Ok(k),
                None => Err::<KeyKind, Error>(Error::InvalidCommand),
            },
    {
        if code == 0 {
            Ok(KeyKind::Balanced)
        } else if code == 1 {
            Ok(KeyKind::PartitionId)
        } else if code == 2 {
            Ok(KeyKind::EntityId)
        } else {
            Err(Error::InvalidCommand)
        }
    }
}

/// The size of a name in bytes, as UTF-8.
pub open spec fn name_size(name: Seq<char>) -> nat {
    vstd::utf8::encode_utf8(name).len()
}

/// The partition an entity id maps to: `((key - 1) mod count) + 1`.
pub open spec fn entity_partition(key: u32, count: nat) -> nat {
    if key == 0 {
        count
    } else {
        ((key - 1) as nat % count + 1) as nat
    }
}

/// The partition of a batch sent with this key, or why there is none.
pub open spec fn target_partition(kind: KeyKind, key: u32, count: nat, cursor: nat) -> Result<
    nat,
    Error,
> {
    match kind {
        KeyKind::Balanced => Ok(cursor + 1),
        KeyKind::PartitionId => if 1 <= key <= count {
            Ok(key as nat)
        } else {
            Err(Error::PartitionNotFound(key))
        },
        KeyKind::EntityId => Ok(entity_partition(key, count)),
    }
}

/// The position of the group with this id.
pub open spec fn group_index(groups: Seq<ConsumerGroup>, id: u32) -> Option<int>
    decreases groups.len(),
{
    if groups.len() == 0 {
        None
    } else if groups.last().id == id {
        Some(groups.len() - 1)
    } else {
        group_index(groups.drop_last(), id)
    }
}

/// A named set of partitions and the consumer groups that read them.
pub struct Topic {
    pub stream_id: u32,
    pub id: u32,
    pub name: String,
    pub partitions: Vec<Partition>,
    pub consumer_groups: Vec<ConsumerGroup>,
    /// Position of the partition that takes the next keyless batch.
    pub cursor: u32,
}

impl Topic {
    pub open spec fn count(&self) -> nat {
        self.partitions@.len()
    }

    pub open spec fn wf(&self) -> bool {
        &&& 1 <= self.partitions@.len() <= u32::MAX
        &&& forall|i: int|
            0 <= i < self.partitions@.len() ==> (#[trigger] self.partitions@[i]).wf()
                && self.partitions@[i].id == i + 1
        &&& self.cursor < self.partitions@.len()
        &&& forall|g: int|
            0 <= g < self.consumer_groups@.len() ==> (#[trigger] self.consumer_groups@[g]).wf()
                && self.consumer_groups@[g].partitions_count == self.partitions@.len()
                && self.consumer_groups@[g].topic_id == self.id
    }

    /// Where a poll of this consumer reads, or why it cannot: a consumer, or a group that
    /// names a partition, reads that partition; otherwise the group hands the polling
    /// client its next partition, or none when the client has no partitions.
    pub open spec fn routed_partition(
        &self,
        consumer_type: ConsumerType,
        consumer_id: u32,
        client_id: u32,
        partition_id: u32,
    ) -> Result<Option<u32>, Error> {
        if consumer_type == ConsumerType::Consumer || partition_id != 0 {
            if 1 <= partition_id <= self.count() {
                Ok(Some(partition_id))
            } else {
                Err(Error::PartitionNotFound(partition_id))
            }
        } else {
            match group_index(self.consumer_groups@, consumer_id) {
                None => Err(Error::ConsumerGroupNotFound(consumer_id, self.id)),
                Some(g) => {
                    let group = self.consumer_groups@[g];
                    if !group.member_ids().contains(client_id) {
                        Err(Error::ConsumerGroupMemberNotFound(client_id, consumer_id, self.id))
                    } else {
                        let mb = group.members@[group.member_ids().index_of(client_id)];
                        if mb.partitions@.len() == 0 {
                            Ok(None)
                        } else {
                            Ok(Some(mb.partitions@[mb.cursor as int]))
                        }
                    }
                },
            }
        }
    }

    /// Whether a poll of this consumer goes through the group's own choice of partition.
    pub open spec fn group_route(consumer_type: ConsumerType, partition_id: u32) -> bool {
        consumer_type == ConsumerType::ConsumerGroup && partition_id == 0
    }

    /// What a poll returns: its error, or its messages.
    pub open spec fn poll_reply(
        &self,
        consumer_type: ConsumerType,
        consumer_id: u32,
        client_id: u32,
        partition_id: u32,
        kind: PollingKind,
        value: u64,
        count: nat,
    ) -> Result<Seq<MessageView>, Error> {
        match self.routed_partition(consumer_type, consumer_id, client_id, partition_id) {
            Err(e) => Err(e),
            Ok(None) => Ok(Seq::empty()),
            Ok(Some(p)) => {
                let part = self.partitions@[p - 1];
                Ok(
                    poll_result(
                        part.messages(),
                        part.stored(),
                        consumer_key(consumer_type, consumer_id),
                        kind,
                        value,
                        count,
                    ),
                )
            },
        }
    }

    /// `after` is this topic after that poll: only the polled partition's stored offsets
    /// change (as auto-commit says), and, for a group poll, the polling member's cursor.
    pub open spec fn polled(
        &self,
        after: Topic,
        consumer_type: ConsumerType,
        consumer_id: u32,
        client_id: u32,
        partition_id: u32,
        kind: PollingKind,
        value: u64,
        count: nat,
        auto_commit: bool,
    ) -> bool {
        let routed = self.routed_partition(consumer_type, consumer_id, client_id, partition_id);
        &&& after.wf()
        &&& after.id == self.id
        &&& after.stream_id == self.stream_id
        &&& after.name == self.name
        &&& after.cursor == self.cursor
        &&& after.partitions@.len() == self.partitions@.len()
        &&& match routed {
            Ok(Some(p)) => {
                let before = self.partitions@[p - 1];
                let now = after.partitions@[p - 1];
                let reply = self.poll_reply(
                    consumer_type,
                    consumer_id,
                    client_id,
                    partition_id,
                    kind,
                    value,
                    count,
                ).unwrap();
                &&& forall|i: int|
                    0 <= i < self.partitions@.len() && i != p - 1 ==> #[trigger] after.partitions@[i]
                        == self.partitions@[i]
                &&& now.id == before.id
                &&& now.max_segment_size == before.max_segment_size
                &&& now.current_offset == before.current_offset
                &&& now.segments == before.segments
                &&& now.stored() == after_poll(
                    before.stored(),
                    consumer_key(consumer_type, consumer_id),
                    reply,
                    auto_commit,
                )
            },
            _ => after.partitions@ == self.partitions@,
        }
        &&& if Topic::group_route(consumer_type, partition_id) && routed.is_ok() && routed.unwrap().is_some() {
            let g = group_index(self.consumer_groups@, consumer_id).unwrap();
            let group = self.consumer_groups@[g];
            &&& after.consumer_groups@.len() == self.consumer_groups@.len()
            &&& forall|j: int|
                0 <= j < self.consumer_groups@.len() && j != g ==> #[trigger] after.consumer_groups@[j]
                    == self.consumer_groups@[j]
            &&& group.advanced(after.consumer_groups@[g], group.member_ids().index_of(client_id))
        } else {
            after.consumer_groups@ == self.consumer_groups@
        }
    }

    /// A topic with `partitions_count` empty partitions numbered from 1.
    pub fn create(
        stream_id: u32,
        id: u32,
        name: String,
        partitions_count: u32,
        max_segment_size: u64,
    ) -> (r: Result<Topic, Error>)
        requires
            name_size(name@) <= usize::MAX,
        ensures
            id == 0 ==> r == Err::<Topic, Error>(Error::InvalidTopicId),
            id != 0 && (name_size(name@) == 0 || name_size(name@) > MAX_NAME_SIZE) ==> r == Err::<
                Topic,
                Error,
            >(Error::InvalidTopicName),
            id != 0 && 1 <= name_size(name@) <= MAX_NAME_SIZE && partitions_count == 0 ==> r
                == Err::<Topic, Error>(Error::InvalidTopicPartitions),
            id != 0 && 1 <= name_size(name@) <= MAX_NAME_SIZE && partitions_count > 0 ==> {
                &&& r.is_ok()
                &&& r.unwrap().wf()
                &&& r.unwrap().id == id
                &&& r.unwrap().stream_id == stream_id
                &&& r.unwrap().name@ == name@
                &&& r.unwrap().count() == partitions_count
                &&& r.unwrap().consumer_groups@.len() == 0
                &&& forall|i: int|
                    0 <= i < partitions_count ==> (#[trigger] r.unwrap().partitions@[i]).messages()
                        .len() == 0
            },
    {
        if id == 0 {
            return Err(Error::InvalidTopicId);
        }
        let text = name.as_str();
        assert(text@ == name@);
        let size = text.len();
        if size == 0 || size > MAX_NAME_SIZE {
            return Err(Error::InvalidTopicName);
        }
        if partitions_count == 0 {
            return Err(Error::InvalidTopicPartitions);
        }
        let mut partitions: Vec<Partition> = Vec::new();
        let mut i: u32 = 0;
        while i < partitions_count
            invariant
                i <= partitions_count,
                partitions@.len() == i,
                forall|j: int|
                    0 <= j < i ==> (#[trigger] partitions@[j]).wf() && partitions@[j].id == j + 1
                        && partitions@[j].messages().len() == 0,
            decreases partitions_count - i,
        {
            partitions.push(Partition::create(i + 1, max_segment_size));
            i = i + 1;
        }
        Ok(Topic { stream_id, id, name, partitions, consumer_groups: Vec::new(), cursor: 0 })
    }

    /// Appends a batch to the partition its key selects. A keyless batch takes the
    /// partition under the cursor, and the cursor moves on to the next partition.
    pub fn append_messages(
        &mut self,
        kind: KeyKind,
        key: u32,
        batch: &Vec<AppendMessage>,
        timestamp: u64,
    ) -> (r: Result<(), Error>)
        requires
            old(self).wf(),
            forall|i: int|
                0 <= i < old(self).partitions@.len() ==> (#[trigger] old(self).partitions@[i]).current_offset
                    + batch@.len() <= u64::MAX && old(self).partitions@[i].segments@.len()
                    + batch@.len() <= usize::MAX,
        ensures
            final(self).wf(),
            final(self).id == old(self).id,
            final(self).stream_id == old(self).stream_id,
            final(self).consumer_groups == old(self).consumer_groups,
            kind == KeyKind::Balanced ==> final(self).cursor == (old(self).cursor + 1) % (old(self).count() as int),
            kind != KeyKind::Balanced ==> final(self).cursor == old(self).cursor,
            final(self).name == old(self).name,
            match target_partition(kind, key, old(self).count(), old(self).cursor as nat) {
                Err(e) => r == Err::<(), Error>(e) && final(self).partitions == old(self).partitions,
                Ok(p) => {
                    &&& forall|i: int|
                        0 <= i < final(self).partitions@.len() && i != p - 1
                            ==> #[trigger] final(self).partitions@[i] == old(self).partitions@[i]
                    &&& final(self).partitions@.len() == old(self).partitions@.len()
                    &&& final(self).partitions@[p - 1].stored() == old(self).partitions@[p
                        - 1].stored()
                    &&& match append_error(batch@) {
                        Some(e) => r == Err::<(), Error>(e) && final(self).partitions@[p
                            - 1].messages() == old(self).partitions@[p - 1].messages(),
                        None => r.is_ok() && final(self).partitions@[p - 1].messages() == old(
                            self,
                        ).partitions@[p - 1].messages() + appended(
                            batch@,
                            old(self).partitions@[p - 1].current_offset as nat,
                            timestamp,
                        ),
                    }
                },
            },
    {
        let count = self.partitions.len() as u32;
        let partition_id: u32 = match kind {
            KeyKind::Balanced => {
                let p = self.cursor + 1;
                self.cursor = if p == count {
                    0
                } else {
                    p
                };
                proof {
                    if p == count {
                        assert((p as int) % (count as int) == 0) by (nonlinear_arith)
                            requires
                                p == count,
                                count > 0,
                        ;
                    } else {
                        vstd::arithmetic::div_mod::lemma_small_mod(p as nat, count as nat);
                    }
                }
                p
            },
            KeyKind::PartitionId => {
                if key == 0 || key > count {
                    return Err(Error::PartitionNotFound(key));
                }
                key
            },
            KeyKind::EntityId => {
                if key == 0 {
                    count
                } else {
                    (key - 1) % count + 1
                }
            },
        };
        let index = (partition_id - 1) as usize;
        let ghost before = self.partitions@;
        let r = self.partitions[index].append_messages(batch, timestamp);
        proof {
            assert forall|i: int| 0 <= i < self.partitions@.len() implies (
            #[trigger] self.partitions@[i]).wf() && self.partitions@[i].id == i + 1 by {
                if i != index {
                    assert(self.partitions@[i] == before[i]);
                }
            }
        }
        r
    }

    /// The position of the group with this id, if there is one.
    pub fn find_group(&self, id: u32) -> (r: Option<usize>)
        ensures
            match r {
                Some(g) => {
                    &&& g < self.consumer_groups@.len()
                    &&& self.consumer_groups@[g as int].id == id
                    &&& group_index(self.consumer_groups@, id) == Some(g as int)
                },
                None => group_index(self.consumer_groups@, id).is_none(),
            },
    {
        proof {
            lemma_group_index_id(self.consumer_groups@, id);
        }
        let mut i: usize = self.consumer_groups.len();
        assert(self.consumer_groups@.take(i as int) =~= self.consumer_groups@);
        while i > 0
            invariant
                i <= self.consumer_groups@.len(),
                group_index(self.consumer_groups@, id) == group_index(
                    self.consumer_groups@.take(i as int),
                    id,
                ),
            decreases i,
        {
            let ghost prefix = self.consumer_groups@.take(i as int);
            assert(prefix.drop_last() =~= self.consumer_groups@.take(i - 1));
            if self.consumer_groups[i - 1].id == id {
                return Some(i - 1);
            }
            i = i - 1;
        }
        assert(self.consumer_groups@.take(0) =~= Seq::<ConsumerGroup>::empty());
        None
    }

    /// Adds an empty consumer group; its id must be non-zero and new to the topic.
    pub fn create_consumer_group(&mut self, group_id: u32) -> (r: Result<(), Error>)
        requires
            old(self).wf(),
        ensures
            final(self).wf(),
            final(self).partitions == old(self).partitions,
            final(self).id == old(self).id,
            final(self).stream_id == old(self).stream_id,
            group_id == 0 ==> r == Err::<(), Error>(Error::InvalidConsumerGroupId),
            group_id != 0 && group_index(old(self).consumer_groups@, group_id).is_some() ==> r
                == Err::<(), Error>(Error::ConsumerGroupAlreadyExists(group_id, old(self).id)),
            group_id != 0 && group_index(old(self).consumer_groups@, group_id).is_none() ==> r.is_ok()
                && group_index(final(self).consumer_groups@, group_id) == Some(
                old(self).consumer_groups@.len() as int,
            ) && final(self).consumer_groups@[old(self).consumer_groups@.len() as int].members@.len()
                == 0,
    {
        if group_id == 0 {
            return Err(Error::InvalidConsumerGroupId);
        }
        if self.find_group(group_id).is_some() {
            return Err(Error::ConsumerGroupAlreadyExists(group_id, self.id));
        }
        let group = ConsumerGroup::new(group_id, self.id, self.partitions.len() as u32);
        let ghost before = self.consumer_groups@;
        self.consumer_groups.push(group);
        assert(self.consumer_groups@.drop_last() =~= before);
        Ok(())
    }

    /// Adds a client to a consumer group of this topic.
    pub fn join_consumer_group(&mut self, group_id: u32, client_id: u32) -> (r: Result<(), Error>)
        requires
            old(self).wf(),
        ensures
            final(self).wf(),
            final(self).partitions == old(self).partitions,
            final(self).consumer_groups@.len() == old(self).consumer_groups@.len(),
            final(self).id == old(self).id,
            final(self).stream_id == old(self).stream_id,
            forall|i: int|
                0 <= i < final(self).consumer_groups@.len() ==> (#[trigger] final(self).consumer_groups@[i]).id
                    == old(self).consumer_groups@[i].id,
            match group_index(old(self).consumer_groups@, group_id) {
                None => r == Err::<(), Error>(Error::ConsumerGroupNotFound(group_id, old(self).id)),
                Some(g) => r.is_ok() && final(self).consumer_groups@[g].member_ids() == if old(
                    self,
                ).consumer_groups@[g].member_ids().contains(client_id) {
                    old(self).consumer_groups@[g].member_ids()
                } else {
                    old(self).consumer_groups@[g].member_ids().push(client_id)
                },
            },
    {
        match self.find_group(group_id) {
            None => Err(Error::ConsumerGroupNotFound(group_id, self.id)),
            Some(g) => {
                let ghost before = self.consumer_groups@;
                proof {
                    lemma_group_index_id(before, group_id);
                }
                self.consumer_groups[g].join(client_id);
                proof {
                    assert forall|i: int| 0 <= i < self.consumer_groups@.len() implies (
                    #[trigger] self.consumer_groups@[i]).wf()
                        && self.consumer_groups@[i].partitions_count == self.partitions@.len()
                        && self.consumer_groups@[i].topic_id == self.id by {
                        if i != g {
                            assert(self.consumer_groups@[i] == before[i]);
                        }
                    }
                    assert forall|i: int| 0 <= i < self.consumer_groups@.len() implies (
                    #[trigger] self.consumer_groups@[i]).id == before[i].id by {
                        if i != g {
                            assert(self.consumer_groups@[i] == before[i]);
                        }
                    }
                }
                Ok(())
            },
        }
    }

    /// Removes a client from a consumer group of this topic.
    pub fn leave_consumer_group(&mut self, group_id: u32, client_id: u32) -> (r: Result<(), Error>)
        requires
            old(self).wf(),
        ensures
            final(self).wf(),
            final(self).partitions == old(self).partitions,
            final(self).consumer_groups@.len() == old(self).consumer_groups@.len(),
            final(self).id == old(self).id,
            final(self).stream_id == old(self).stream_id,
            forall|i: int|
                0 <= i < final(self).consumer_groups@.len() ==> (#[trigger] final(self).consumer_groups@[i]).id
                    == old(self).consumer_groups@[i].id,
            forall|i: int|
                0 <= i < old(self).consumer_groups@.len() && Some(i) != group_index(
                    old(self).consumer_groups@,
                    group_id,
                ) ==> #[trigger] final(self).consumer_groups@[i] == old(self).consumer_groups@[i],
            match group_index(old(self).consumer_groups@, group_id) {
                Some(g) => !final(self).consumer_groups@[g].member_ids().contains(client_id),
                None => true,
            },
            match group_index(old(self).consumer_groups@, group_id) {
                None => r == Err::<(), Error>(Error::ConsumerGroupNotFound(group_id, old(self).id)),
                Some(g) => if old(self).consumer_groups@[g].member_ids().contains(client_id) {
                    r.is_ok() && final(self).consumer_groups@[g].member_ids() == old(
                        self,
                    ).consumer_groups@[g].member_ids().remove(
                        old(self).consumer_groups@[g].member_ids().index_of(client_id),
                    )
                } else {
                    r == Err::<(), Error>(
                        Error::ConsumerGroupMemberNotFound(client_id, group_id, old(self).id),
                    )
                },
            },
    {
        match self.find_group(group_id) {
            None => Err(Error::ConsumerGroupNotFound(group_id, self.id)),
            Some(g) => {
                let ghost before = self.consumer_groups@;
                proof {
                    lemma_group_index_id(before, group_id);
                    assert(before[g as int].id == group_id);
                    assert(before[g as int].topic_id == self.id);
                }
                let r = self.consumer_groups[g].leave(client_id);
                proof {
                    assert forall|i: int| 0 <= i < self.consumer_groups@.len() implies (
                    #[trigger] self.consumer_groups@[i]).wf()
                        && self.consumer_groups@[i].partitions_count == self.partitions@.len()
                        && self.consumer_groups@[i].topic_id == self.id by {
                        if i != g {
                            assert(self.consumer_groups@[i] == before[i]);
                        }
                    }
                    assert forall|i: int| 0 <= i < self.consumer_groups@.len() implies (
                    #[trigger] self.consumer_groups@[i]).id == before[i].id by {
                        if i != g {
                            assert(self.consumer_groups@[i] == before[i]);
                        }
                    }
                }
                r
            },
        }
    }

    /// Polls for a consumer or for a member of a consumer group. Offsets are kept under
    /// the consumer's id, or under the group's id for a group.
    pub fn poll_messages(
        &mut self,
        consumer_type: ConsumerType,
        consumer_id: u32,
        client_id: u32,
        partition_id: u32,
        kind: PollingKind,
        value: u64,
        count: u32,
        auto_commit: bool,
    ) -> (r: Result<Vec<Message>, Error>)
        requires
            old(self).wf(),
        ensures
            result_views(r) == old(self).poll_reply(
                consumer_type,
                consumer_id,
                client_id,
                partition_id,
                kind,
                value,
                count as nat,
            ),
            old(self).polled(
                *final(self),
                consumer_type,
                consumer_id,
                client_id,
                partition_id,
                kind,
                value,
                count as nat,
                auto_commit,
            ),
    {
        let count_partitions = self.partitions.len() as u32;
        let target: u32 = if consumer_type == ConsumerType::Consumer || partition_id != 0 {
            if partition_id == 0 || partition_id > count_partitions {
                return Err(Error::PartitionNotFound(partition_id));
            }
            partition_id
        } else {
            match self.find_group(consumer_id) {
                None => {
                    return Err(Error::ConsumerGroupNotFound(consumer_id, self.id));
                },
                Some(g) => {
                    let ghost before = self.consumer_groups@;
                    proof {
                        lemma_group_index_id(before, consumer_id);
                        assert(before[g as int].id == consumer_id);
                        assert(before[g as int].topic_id == self.id);
                    }
                    let next = self.consumer_groups[g].next_partition(client_id);
                    proof {
                        assert forall|i: int| 0 <= i < self.consumer_groups@.len() implies (
                        #[trigger] self.consumer_groups@[i]).wf()
                            && self.consumer_groups@[i].partitions_count == self.partitions@.len()
                            && self.consumer_groups@[i].topic_id == self.id by {
                            if i != g {
                                assert(self.consumer_groups@[i] == before[i]);
                            }
                        }
                    }
                    match next {
                        Err(e) => {
                            assert(self.consumer_groups@ =~= before);
                            return Err(e);
                        },
                        Ok(None) => {
                            assert(self.consumer_groups@ =~= before);
                            let empty: Vec<Message> = Vec::new();
                            assert(views(empty@) =~= Seq::<MessageView>::empty());
                            return Ok(empty);
                        },
                        Ok(Some(p)) => {
                            proof {
                                let grp = before[g as int];
                                let i = grp.member_ids().index_of(client_id);
                                lemma_member_partition_in_range(grp, i, grp.members@[i].cursor as int);
                            }
                            p
                        },
                    }
                },
            }
        };
        let index = (target - 1) as usize;
        let ghost before = self.partitions@;
        let r = self.partitions[index].poll_messages(
            consumer_type,
            consumer_id,
            kind,
            value,
            count,
            auto_commit,
        );
        proof {
            assert forall|i: int| 0 <= i < self.partitions@.len() implies (
            #[trigger] self.partitions@[i]).wf() && self.partitions@[i].id == i + 1 by {
                if i != index {
                    assert(self.partitions@[i] == before[i]);
                }
            }
        }
        Ok(r)
    }
}

impl Topic {
    /// Stores a consumer's offset on one partition.
    pub fn store_offset(
        &mut self,
        consumer_type: ConsumerType,
        consumer_id: u32,
        partition_id: u32,
        offset: u64,
    ) -> (r: Result<(), Error>)
        requires
            old(self).wf(),
        ensures
            final(self).wf(),
            final(self).id == old(self).id,
            final(self).stream_id == old(self).stream_id,
            final(self).partitions@.len() == old(self).partitions@.len(),
            !(1 <= partition_id <= old(self).count()) ==> r == Err::<(), Error>(
                Error::PartitionNotFound(partition_id),
            ) && final(self).partitions == old(self).partitions,
            1 <= partition_id <= old(self).count() ==> {
                let before = old(self).partitions@[partition_id - 1];
                let after = final(self).partitions@[partition_id - 1];
                &&& after.messages() == before.messages()
                &&& if offset >= before.current_offset {
                    r == Err::<(), Error>(Error::InvalidOffset(offset)) && after.stored()
                        == before.stored()
                } else {
                    r.is_ok() && after.stored() == before.stored().insert(
                        consumer_key(consumer_type, consumer_id),
                        offset,
                    )
                }
            },
    {
        if partition_id == 0 || partition_id as usize > self.partitions.len() {
            return Err(Error::PartitionNotFound(partition_id));
        }
        let index = (partition_id - 1) as usize;
        let ghost before = self.partitions@;
        let r = self.partitions[index].store_offset(consumer_type, consumer_id, offset);
        proof {
            assert forall|i: int| 0 <= i < self.partitions@.len() implies (
            #[trigger] self.partitions@[i]).wf() && self.partitions@[i].id == i + 1 by {
                if i != index {
                    assert(self.partitions@[i] == before[i]);
                }
            }
        }
        r
    }

    /// The offset stored for a consumer on one partition, if any.
    pub fn get_offset(&self, consumer_type: ConsumerType, consumer_id: u32, partition_id: u32) -> (r:
        Result<Option<u64>, Error>)
        requires
            self.wf(),
        ensures
            !(1 <= partition_id <= self.count()) ==> r == Err::<Option<u64>, Error>(
                Error::PartitionNotFound(partition_id),
            ),
            1 <= partition_id <= self.count() ==> {
                let stored = self.partitions@[partition_id - 1].stored();
                let key = consumer_key(consumer_type, consumer_id);
                r == Ok::<Option<u64>, Error>(
                    if stored.contains_key(key) {
                        Some(stored[key])
                    } else {
                        None
                    },
                )
            },
    {
        if partition_id == 0 || partition_id as usize > self.partitions.len() {
            return Err(Error::PartitionNotFound(partition_id));
        }
        Ok(self.partitions[(partition_id - 1) as usize].get_offset(consumer_type, consumer_id))
    }
}

/// A poll's result as values: its error, or the views of its messages.
pub open spec fn result_views(r: Result<Vec<Message>, Error>) -> Result<Seq<MessageView>, Error> {
    match r {
        Ok(ms) => Ok(views(ms@)),
        Err(e) => Err(e),
    }
}

/// The group found under an id has that id.
pub proof fn lemma_group_index_id(groups: Seq<ConsumerGroup>, id: u32)
    ensures
        match group_index(groups, id) {
            Some(g) => 0 <= g < groups.len() && groups[g].id == id,
            None => true,
        },
    decreases groups.len(),
{
    if groups.len() > 0 && groups.last().id != id {
        lemma_group_index_id(groups.drop_last(), id);
    }
}

/// Every partition a well-formed group assigns is one of the topic's partitions.
proof fn lemma_member_partition_in_range(g: ConsumerGroup, i: int, k: int)
    requires
        g.wf(),
        0 <= i < g.members@.len(),
        0 <= k < g.members@[i].partitions@.len(),
    ensures
        1 <= g.members@[i].partitions@[k] <= g.partitions_count,
{
    crate::consumer_group::lemma_assignment_balanced(g);
    assert(g.assigned(i)[k] == g.members@[i].partitions@[k]);
    assert(g.assigned(i).contains(g.members@[i].partitions@[k]));
}

} // verus!
