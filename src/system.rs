use crate::clients::{ClientRegistry, Membership};
use crate::consumer_group::ConsumerGroup;
use crate::consumer_type::ConsumerType;
use crate::error::Error;
use crate::message::{encode_poll_response, poll_response_body, views, MessageView};
use crate::partition::{
    append_error, appended, consumer_key, lemma_poll_result_len, poll_result, AppendMessage,
};
use crate::get_offset::GetOffset;
use crate::poll::PollMessages;
use crate::store_offset::StoreOffset;
use crate::topic::{group_index, lemma_group_index_id, name_size, target_partition, KeyKind, Topic, MAX_NAME_SIZE};
use vstd::prelude::*;

verus! {

/// A namespace of topics.
pub struct Stream {
    pub id: u32,
    pub name: String,
    pub topics: Vec<Topic>,
}

impl Stream {
    pub open spec fn wf(&self) -> bool {
        forall|t: int|
            0 <= t < self.topics@.len() ==> (#[trigger] self.topics@[t]).wf()
                && self.topics@[t].stream_id == self.id
    }
}

/// The position of the stream with this id.
pub open spec fn stream_index(streams: Seq<Stream>, id: u32) -> Option<int>
    decreases streams.len(),
{
    if streams.len() == 0 {
        None
    } else if streams.last().id == id {
        Some(streams.len() - 1)
    } else {
        stream_index(streams.drop_last(), id)
    }
}

/// The position of the topic with this id.
pub open spec fn topic_index(topics: Seq<Topic>, id: u32) -> Option<int>
    decreases topics.len(),
{
    if topics.len() == 0 {
        None
    } else if topics.last().id == id {
        Some(topics.len() - 1)
    } else {
        topic_index(topics.drop_last(), id)
    }
}

/// Some stream already has this name.
pub open spec fn name_taken(streams: Seq<Stream>, name: Seq<char>) -> bool {
    exists|i: int| 0 <= i < streams.len() && (#[trigger] streams[i]).name@ == name
}

/// The broker: its streams, and the segment size its partitions roll at.
pub struct System {
    pub streams: Vec<Stream>,
    pub max_segment_size: u64,
    pub clients: ClientRegistry,
}

impl System {
    pub open spec fn wf(&self) -> bool {
        &&& forall|s: int| 0 <= s < self.streams@.len() ==> (#[trigger] self.streams@[s]).wf()
        &&& self.clients.wf()
    }

    /// The consumer group a membership names, if the stream, topic and group exist.
    pub open spec fn group_at(&self, stream_id: u32, topic_id: u32, group_id: u32) -> Option<
        ConsumerGroup,
    > {
        match stream_index(self.streams@, stream_id) {
            None => None,
            Some(s) => match topic_index(self.streams@[s].topics@, topic_id) {
                None => None,
                Some(t) => match group_index(self.streams@[s].topics@[t].consumer_groups@, group_id) {
                    None => None,
                    Some(g) => Some(self.streams@[s].topics@[t].consumer_groups@[g]),
                },
            },
        }
    }

    pub fn new(max_segment_size: u64) -> (r: System)
        ensures
            r.wf(),
            r.streams@.len() == 0,
            r.max_segment_size == max_segment_size,
    {
        System { streams: Vec::new(), max_segment_size, clients: ClientRegistry::new() }
    }

    /// Registers a new connection and hands back its client id.
    pub fn connect(&mut self, address: String) -> (r: Result<u32, Error>)
        requires
            old(self).wf(),
        ensures
            final(self).wf(),
            final(self).streams == old(self).streams,
            old(self).clients.next_id == u32::MAX ==> r == Err::<u32, Error>(Error::InvalidClientId),
            old(self).clients.next_id < u32::MAX ==> r == Ok::<u32, Error>(old(self).clients.next_id)
                && final(self).clients.ids() == old(self).clients.ids().push(old(self).clients.next_id),
    {
        self.clients.connect(address)
    }

    /// The positions of a stream and of one of its topics.
    fn locate_topic(&self, stream_id: u32, topic_id: u32) -> (r: Result<(usize, usize), Error>)
        ensures
            match r {
                Ok((s, t)) => {
                    &&& s < self.streams@.len()
                    &&& t < self.streams@[s as int].topics@.len()
                    &&& stream_index(self.streams@, stream_id) == Some(s as int)
                    &&& topic_index(self.streams@[s as int].topics@, topic_id) == Some(t as int)
                },
                Err(e) => match stream_index(self.streams@, stream_id) {
                    None => e == Error::StreamNotFound(stream_id),
                    Some(s) => topic_index(self.streams@[s].topics@, topic_id).is_none() && e
                        == Error::TopicNotFound(topic_id, stream_id),
                },
            },
    {
        let s = match self.find_stream(stream_id) {
            None => {
                return Err(Error::StreamNotFound(stream_id));
            },
            Some(s) => s,
        };
        let t = match self.streams[s].find_topic(topic_id) {
            None => {
                return Err(Error::TopicNotFound(topic_id, stream_id));
            },
            Some(t) => t,
        };
        Ok((s, t))
    }

    /// Serves a store-offset request.
    pub fn store_offset(&mut self, command: &StoreOffset) -> (r: Result<(), Error>)
        requires
            old(self).wf(),
        ensures
            final(self).wf(),
            final(self).streams@.len() == old(self).streams@.len(),
            match stream_index(old(self).streams@, command.stream_id) {
                None => r == Err::<(), Error>(Error::StreamNotFound(command.stream_id)),
                Some(s) => match topic_index(old(self).streams@[s].topics@, command.topic_id) {
                    None => r == Err::<(), Error>(
                        Error::TopicNotFound(command.topic_id, command.stream_id),
                    ),
                    Some(t) => {
                        let ot = old(self).streams@[s].topics@[t];
                        let nt = final(self).streams@[s].topics@[t];
                        if !(1 <= command.partition_id <= ot.count()) {
                            r == Err::<(), Error>(Error::PartitionNotFound(command.partition_id))
                        } else {
                            let before = ot.partitions@[command.partition_id - 1];
                            let after = nt.partitions@[command.partition_id - 1];
                            if command.offset >= before.current_offset {
                                r == Err::<(), Error>(Error::InvalidOffset(command.offset))
                            } else {
                                r.is_ok() && after.stored() == before.stored().insert(
                                    consumer_key(command.consumer_type, command.consumer_id),
                                    command.offset,
                                )
                            }
                        }
                    },
                },
            },
    {
        let (s, t) = match self.locate_topic(command.stream_id, command.topic_id) {
            Ok(found) => found,
            Err(e) => {
                return Err(e);
            },
        };
        let ghost before = self.streams@;
        let r = self.streams[s].topics[t].store_offset(
            command.consumer_type,
            command.consumer_id,
            command.partition_id,
            command.offset,
        );
        proof {
            assert forall|i: int| 0 <= i < self.streams@.len() implies (
            #[trigger] self.streams@[i]).wf() by {
                if i != s {
                    assert(self.streams@[i] == before[i]);
                } else {
                    let ts = self.streams@[i].topics@;
                    assert forall|j: int| 0 <= j < ts.len() implies (#[trigger] ts[j]).wf()
                        && ts[j].stream_id == self.streams@[i].id by {
                        if j != t {
                            assert(ts[j] == before[i].topics@[j]);
                        }
                    }
                }
            }
        }
        r
    }

    /// Serves a get-offset request.
    pub fn get_offset(&self, command: &GetOffset) -> (r: Result<Option<u64>, Error>)
        requires
            self.wf(),
        ensures
            match stream_index(self.streams@, command.stream_id) {
                None => r == Err::<Option<u64>, Error>(Error::StreamNotFound(command.stream_id)),
                Some(s) => match topic_index(self.streams@[s].topics@, command.topic_id) {
                    None => r == Err::<Option<u64>, Error>(
                        Error::TopicNotFound(command.topic_id, command.stream_id),
                    ),
                    Some(t) => {
                        let topic = self.streams@[s].topics@[t];
                        if !(1 <= command.partition_id <= topic.count()) {
                            r == Err::<Option<u64>, Error>(
                                Error::PartitionNotFound(command.partition_id),
                            )
                        } else {
                            let stored = topic.partitions@[command.partition_id - 1].stored();
                            let key = consumer_key(command.consumer_type, command.consumer_id);
                            r == Ok::<Option<u64>, Error>(
                                if stored.contains_key(key) {
                                    Some(stored[key])
                                } else {
                                    None
                                },
                            )
                        }
                    },
                },
            },
    {
        let (s, t) = match self.locate_topic(command.stream_id, command.topic_id) {
            Ok(found) => found,
            Err(e) => {
                return Err(e);
            },
        };
        self.streams[s].topics[t].get_offset(
            command.consumer_type,
            command.consumer_id,
            command.partition_id,
        )
    }

    /// Removes a stream with all its topics.
    pub fn delete_stream(&mut self, stream_id: u32) -> (r: Result<(), Error>)
        requires
            old(self).wf(),
        ensures
            final(self).wf(),
            match stream_index(old(self).streams@, stream_id) {
                None => r == Err::<(), Error>(Error::StreamNotFound(stream_id))
                    && final(self).streams == old(self).streams,
                Some(s) => r.is_ok() && final(self).streams@ == old(self).streams@.remove(s),
            },
    {
        match self.find_stream(stream_id) {
            None => Err(Error::StreamNotFound(stream_id)),
            Some(s) => {
                let ghost before = self.streams@;
                self.streams.remove(s);
                proof {
                    assert forall|i: int| 0 <= i < self.streams@.len() implies (
                    #[trigger] self.streams@[i]).wf() by {
                        if i < s {
                            assert(self.streams@[i] == before[i]);
                        } else {
                            assert(self.streams@[i] == before[i + 1]);
                        }
                    }
                }
                Ok(())
            },
        }
    }

    /// Removes a topic of a stream with all its partitions and groups.
    pub fn delete_topic(&mut self, stream_id: u32, topic_id: u32) -> (r: Result<(), Error>)
        requires
            old(self).wf(),
        ensures
            final(self).wf(),
            final(self).streams@.len() == old(self).streams@.len(),
            match stream_index(old(self).streams@, stream_id) {
                None => r == Err::<(), Error>(Error::StreamNotFound(stream_id)),
                Some(s) => match topic_index(old(self).streams@[s].topics@, topic_id) {
                    None => r == Err::<(), Error>(Error::TopicNotFound(topic_id, stream_id)),
                    Some(t) => r.is_ok() && final(self).streams@[s].topics@ == old(
                        self,
                    ).streams@[s].topics@.remove(t),
                },
            },
    {
        let (s, t) = match self.locate_topic(stream_id, topic_id) {
            Ok(found) => found,
            Err(e) => {
                return Err(e);
            },
        };
        let ghost before = self.streams@;
        self.streams[s].topics.remove(t);
        proof {
            assert forall|i: int| 0 <= i < self.streams@.len() implies (
            #[trigger] self.streams@[i]).wf() by {
                if i != s {
                    assert(self.streams@[i] == before[i]);
                } else {
                    let ts = self.streams@[i].topics@;
                    assert forall|j: int| 0 <= j < ts.len() implies (#[trigger] ts[j]).wf()
                        && ts[j].stream_id == self.streams@[i].id by {
                        if j < t {
                            assert(ts[j] == before[i].topics@[j]);
                        } else {
                            assert(ts[j] == before[i].topics@[j + 1]);
                        }
                    }
                }
            }
        }
        Ok(())
    }

    /// Adds an empty consumer group to a topic of a stream.
    pub fn create_consumer_group(&mut self, stream_id: u32, topic_id: u32, group_id: u32) -> (r:
        Result<(), Error>)
        requires
            old(self).wf(),
        ensures
            final(self).wf(),
            final(self).clients == old(self).clients,
            match stream_index(old(self).streams@, stream_id) {
                None => r == Err::<(), Error>(Error::StreamNotFound(stream_id)),
                Some(s) => match topic_index(old(self).streams@[s].topics@, topic_id) {
                    None => r == Err::<(), Error>(Error::TopicNotFound(topic_id, stream_id)),
                    Some(t) => {
                        let groups = old(self).streams@[s].topics@[t].consumer_groups@;
                        if group_id == 0 {
                            r == Err::<(), Error>(Error::InvalidConsumerGroupId)
                        } else if group_index(groups, group_id).is_some() {
                            r == Err::<(), Error>(
                                Error::ConsumerGroupAlreadyExists(group_id, topic_id),
                            )
                        } else {
                            r.is_ok() && final(self).group_at(stream_id, topic_id, group_id).is_some()
                                && final(self).group_at(
                                stream_id,
                                topic_id,
                                group_id,
                            ).unwrap().members@.len() == 0
                        }
                    },
                },
            },
    {
        let (s, t) = match self.locate_topic(stream_id, topic_id) {
            Ok(found) => found,
            Err(e) => {
                return Err(e);
            },
        };
        let ghost before = self.streams@;
        proof {
            lemma_topic_index_id(before[s as int].topics@, topic_id);
        }
        let r = self.streams[s].topics[t].create_consumer_group(group_id);
        proof {
            self.lemma_streams_wf_after_topic_change(before, s as int, t as int);
            lemma_stream_index_same_ids(before, self.streams@, stream_id);
            lemma_topic_index_same_ids(
                before[s as int].topics@,
                self.streams@[s as int].topics@,
                topic_id,
            );
        }
        r
    }

    /// Adds a connected client to a consumer group and records the membership.
    pub fn join_consumer_group(
        &mut self,
        stream_id: u32,
        topic_id: u32,
        group_id: u32,
        client_id: u32,
    ) -> (r: Result<(), Error>)
        requires
            old(self).wf(),
        ensures
            final(self).wf(),
            final(self).clients.ids() == old(self).clients.ids(),
            !old(self).clients.ids().contains(client_id) ==> r == Err::<(), Error>(
                Error::ClientNotFound(client_id),
            ),
            old(self).clients.ids().contains(client_id) ==> match stream_index(
                old(self).streams@,
                stream_id,
            ) {
                None => r == Err::<(), Error>(Error::StreamNotFound(stream_id)),
                Some(s) => match topic_index(old(self).streams@[s].topics@, topic_id) {
                    None => r == Err::<(), Error>(Error::TopicNotFound(topic_id, stream_id)),
                    Some(t) => match group_index(
                        old(self).streams@[s].topics@[t].consumer_groups@,
                        group_id,
                    ) {
                        None => r == Err::<(), Error>(Error::ConsumerGroupNotFound(group_id, topic_id)),
                        Some(g) => r.is_ok() && final(self).streams@[s].topics@[t].consumer_groups@[g].member_ids().contains(
                            client_id,
                        ),
                    },
                },
            },
    {
        match self.clients.find(client_id) {
            None => {
                return Err(Error::ClientNotFound(client_id));
            },
            Some(i) => {
                assert(self.clients.ids()[i as int] == client_id);
            },
        }
        let (s, t) = match self.locate_topic(stream_id, topic_id) {
            Ok(found) => found,
            Err(e) => {
                return Err(e);
            },
        };
        let ghost before = self.streams@;
        let ghost topic_before = before[s as int].topics@[t as int];
        proof {
            lemma_topic_index_id(before[s as int].topics@, topic_id);
        }
        let r = self.streams[s].topics[t].join_consumer_group(group_id, client_id);
        proof {
            self.lemma_streams_wf_after_topic_change(before, s as int, t as int);
            match group_index(topic_before.consumer_groups@, group_id) {
                Some(g) => {
                    let old_ids = topic_before.consumer_groups@[g].member_ids();
                    if !old_ids.contains(client_id) {
                        assert(old_ids.push(client_id)[old_ids.len() as int] == client_id);
                    }
                },
                None => {},
            }
        }
        if r.is_err() {
            return r;
        }
        let added = self.clients.add_membership(client_id, Membership { stream_id, topic_id, group_id });
        assert(added.is_ok());
        Ok(())
    }

    /// Removes a client from a consumer group.
    fn leave_group(&mut self, stream_id: u32, topic_id: u32, group_id: u32, client_id: u32) -> (r:
        Result<(), Error>)
        requires
            old(self).wf(),
        ensures
            final(self).wf(),
            final(self).clients == old(self).clients,
            final(self).streams@.len() == old(self).streams@.len(),
            forall|sid: u32, tid: u32, gid: u32|
                !(sid == stream_id && tid == topic_id && gid == group_id) ==> #[trigger] final(self).group_at(sid, tid, gid)
                    == old(self).group_at(sid, tid, gid),
            old(self).group_at(stream_id, topic_id, group_id).is_none() ==> final(self).group_at(
                stream_id,
                topic_id,
                group_id,
            ).is_none(),
            old(self).group_at(stream_id, topic_id, group_id).is_some() ==> final(self).group_at(
                stream_id,
                topic_id,
                group_id,
            ).is_some() && !final(self).group_at(stream_id, topic_id, group_id).unwrap().member_ids().contains(
                client_id,
            ),
            match old(self).group_at(stream_id, topic_id, group_id) {
                None => r.is_err(),
                Some(g) => if g.member_ids().contains(client_id) {
                    r.is_ok() && final(self).group_at(stream_id, topic_id, group_id).is_some()
                        && final(self).group_at(stream_id, topic_id, group_id).unwrap().member_ids()
                        == g.member_ids().remove(g.member_ids().index_of(client_id))
                } else {
                    r == Err::<(), Error>(
                        Error::ConsumerGroupMemberNotFound(client_id, group_id, topic_id),
                    )
                },
            },
    {
        let (s, t) = match self.locate_topic(stream_id, topic_id) {
            Ok(found) => found,
            Err(e) => {
                return Err(e);
            },
        };
        let ghost before = self.streams@;
        let ghost old_self = *self;
        proof {
            lemma_topic_index_id(before[s as int].topics@, topic_id);
            lemma_stream_index_id(before, stream_id);
        }
        let r = self.streams[s].topics[t].leave_consumer_group(group_id, client_id);
        proof {
            self.lemma_streams_wf_after_topic_change(before, s as int, t as int);
            let gi = group_index(before[s as int].topics@[t as int].consumer_groups@, group_id);
            lemma_group_index_id(before[s as int].topics@[t as int].consumer_groups@, group_id);
            assert forall|sid: u32, tid: u32, gid: u32|
                !(sid == stream_id && tid == topic_id && gid == group_id) implies #[trigger] self.group_at(
                sid,
                tid,
                gid,
            ) == old_self.group_at(sid, tid, gid) by {
                lemma_stream_index_same_ids(before, self.streams@, sid);
                lemma_stream_index_id(before, sid);
                match stream_index(before, sid) {
                    None => {},
                    Some(s2) => {
                        if s2 == s {
                            let ot = before[s as int].topics@;
                            let nt = self.streams@[s as int].topics@;
                            lemma_topic_index_same_ids(ot, nt, tid);
                            lemma_topic_index_id(ot, tid);
                            match topic_index(ot, tid) {
                                None => {},
                                Some(t2) => {
                                    if t2 == t {
                                        let og = ot[t as int].consumer_groups@;
                                        let ng = nt[t as int].consumer_groups@;
                                        lemma_group_index_same_ids(og, ng, gid);
                                        lemma_group_index_id(og, gid);
                                        match group_index(og, gid) {
                                            None => {},
                                            Some(g2) => {
                                                if gi == Some(g2) {
                                                    assert(gid == group_id);
                                                }
                                                assert(ng[g2] == og[g2]);
                                            },
                                        }
                                    } else {
                                        assert(nt[t2] == ot[t2]);
                                    }
                                },
                            }
                        } else {
                            assert(self.streams@[s2] == before[s2]);
                        }
                    },
                }
            }
            lemma_stream_index_same_ids(before, self.streams@, stream_id);
            lemma_topic_index_same_ids(
                before[s as int].topics@,
                self.streams@[s as int].topics@,
                topic_id,
            );
            lemma_group_index_same_ids(
                before[s as int].topics@[t as int].consumer_groups@,
                self.streams@[s as int].topics@[t as int].consumer_groups@,
                group_id,
            );
        }
        r
    }

    /// Removes a client from a consumer group it joined.
    pub fn leave_consumer_group(
        &mut self,
        stream_id: u32,
        topic_id: u32,
        group_id: u32,
        client_id: u32,
    ) -> (r: Result<(), Error>)
        requires
            old(self).wf(),
        ensures
            final(self).wf(),
            final(self).clients.ids() == old(self).clients.ids(),
            !old(self).clients.ids().contains(client_id) ==> r == Err::<(), Error>(
                Error::ClientNotFound(client_id),
            ),
            old(self).clients.ids().contains(client_id) ==> match old(self).group_at(
                stream_id,
                topic_id,
                group_id,
            ) {
                None => r.is_err(),
                Some(g) => if g.member_ids().contains(client_id) {
                    r.is_ok() && final(self).group_at(stream_id, topic_id, group_id).unwrap().member_ids()
                        == g.member_ids().remove(g.member_ids().index_of(client_id))
                } else {
                    r == Err::<(), Error>(
                        Error::ConsumerGroupMemberNotFound(client_id, group_id, topic_id),
                    )
                },
            },
    {
        match self.clients.find(client_id) {
            None => {
                return Err(Error::ClientNotFound(client_id));
            },
            Some(i) => {
                assert(self.clients.ids()[i as int] == client_id);
            },
        }
        self.leave_group(stream_id, topic_id, group_id, client_id)
    }

    /// Drops a disconnected client and takes it out of every group it joined; groups that
    /// have since gone away are skipped.
    pub fn disconnect(&mut self, client_id: u32) -> (r: Result<(), Error>)
        requires
            old(self).wf(),
        ensures
            final(self).wf(),
            final(self).streams@.len() == old(self).streams@.len(),
            old(self).clients.ids().contains(client_id) ==> r.is_ok() && final(self).clients.ids()
                == old(self).clients.ids().remove(old(self).clients.ids().index_of(client_id)),
            old(self).clients.ids().contains(client_id) ==> {
                let joined = old(self).clients.clients@[old(self).clients.ids().index_of(
                    client_id,
                )].memberships@;
                forall|k: int|
                    0 <= k < joined.len() ==> {
                        let g = final(self).group_at(
                            #[trigger] joined[k].stream_id,
                            joined[k].topic_id,
                            joined[k].group_id,
                        );
                        g.is_some() ==> !g.unwrap().member_ids().contains(client_id)
                    }
            },
            !old(self).clients.ids().contains(client_id) ==> r == Err::<(), Error>(
                Error::ClientNotFound(client_id),
            ) && final(self).clients.ids() == old(self).clients.ids(),
    {
        let client = match self.clients.disconnect(client_id) {
            Ok(c) => c,
            Err(e) => {
                return Err(e);
            },
        };
        let ghost ids = self.clients.ids();
        let ghost joined = client.memberships@;
        let mut i: usize = 0;
        while i < client.memberships.len()
            invariant
                self.wf(),
                self.clients.ids() == ids,
                self.streams@.len() == old(self).streams@.len(),
                i <= client.memberships@.len(),
                joined == client.memberships@,
                forall|k: int|
                    0 <= k < i ==> {
                        let g = self.group_at(
                            #[trigger] joined[k].stream_id,
                            joined[k].topic_id,
                            joined[k].group_id,
                        );
                        g.is_some() ==> !g.unwrap().member_ids().contains(client_id)
                    },
            decreases client.memberships@.len() - i,
        {
            let m = client.memberships[i];
            let ghost prior = *self;
            let _ = self.leave_group(m.stream_id, m.topic_id, m.group_id, client_id);
            proof {
                assert forall|k: int| 0 <= k < i + 1 implies {
                    let g = self.group_at(
                        #[trigger] joined[k].stream_id,
                        joined[k].topic_id,
                        joined[k].group_id,
                    );
                    g.is_some() ==> !g.unwrap().member_ids().contains(client_id)
                } by {
                    let mk = joined[k];
                    if !(mk.stream_id == m.stream_id && mk.topic_id == m.topic_id && mk.group_id
                        == m.group_id) {
                        assert(self.group_at(mk.stream_id, mk.topic_id, mk.group_id) == prior.group_at(
                            mk.stream_id,
                            mk.topic_id,
                            mk.group_id,
                        ));
                    }
                }
            }
            i = i + 1;
        }
        Ok(())
    }

    /// After one topic changed but kept its ids and stayed well formed, the streams are
    /// well formed still.
    proof fn lemma_streams_wf_after_topic_change(&self, before: Seq<Stream>, s: int, t: int)
        requires
            0 <= s < before.len(),
            0 <= t < before[s].topics@.len(),
            self.streams@.len() == before.len(),
            forall|i: int| 0 <= i < before.len() && i != s ==> #[trigger] self.streams@[i] == before[i],
            self.streams@[s].id == before[s].id,
            self.streams@[s].name == before[s].name,
            self.streams@[s].topics@.len() == before[s].topics@.len(),
            forall|j: int|
                0 <= j < before[s].topics@.len() && j != t ==> #[trigger] self.streams@[s].topics@[j]
                    == before[s].topics@[j],
            self.streams@[s].topics@[t].wf(),
            self.streams@[s].topics@[t].stream_id == before[s].topics@[t].stream_id,
            self.streams@[s].topics@[t].id == before[s].topics@[t].id,
            forall|i: int| 0 <= i < before.len() ==> (#[trigger] before[i]).wf(),
        ensures
            forall|i: int| 0 <= i < self.streams@.len() ==> (#[trigger] self.streams@[i]).wf(),
    {
        assert forall|i: int| 0 <= i < self.streams@.len() implies (
        #[trigger] self.streams@[i]).wf() by {
            if i == s {
                let ts = self.streams@[i].topics@;
                assert forall|j: int| 0 <= j < ts.len() implies (#[trigger] ts[j]).wf()
                    && ts[j].stream_id == self.streams@[i].id by {
                    if j != t {
                        assert(ts[j] == before[i].topics@[j]);
                    }
                    assert(before[i].topics@[j].wf());
                }
            }
        }
    }

    /// The position of the stream with this id, if there is one.
    pub fn find_stream(&self, id: u32) -> (r: Option<usize>)
        ensures
            match r {
                Some(s) => {
                    &&& s < self.streams@.len()
                    &&& self.streams@[s as int].id == id
                    &&& stream_index(self.streams@, id) == Some(s as int)
                },
                None => stream_index(self.streams@, id).is_none(),
            },
    {
        proof {
            lemma_stream_index_id(self.streams@, id);
        }
        let mut i: usize = self.streams.len();
        assert(self.streams@.take(i as int) =~= self.streams@);
        while i > 0
            invariant
                i <= self.streams@.len(),
                stream_index(self.streams@, id) == stream_index(self.streams@.take(i as int), id),
            decreases i,
        {
            assert(self.streams@.take(i as int).drop_last() =~= self.streams@.take(i - 1));
            if self.streams[i - 1].id == id {
                return Some(i - 1);
            }
            i = i - 1;
        }
        assert(self.streams@.take(0) =~= Seq::<Stream>::empty());
        None
    }

    /// Whether a stream already has this name.
    fn has_stream_named(&self, name: &String) -> (r: bool)
        ensures
            r == name_taken(self.streams@, name@),
    {
        let mut i: usize = 0;
        while i < self.streams.len()
            invariant
                i <= self.streams@.len(),
                forall|j: int| 0 <= j < i ==> (#[trigger] self.streams@[j]).name@ != name@,
            decreases self.streams@.len() - i,
        {
            if self.streams[i].name == *name {
                return true;
            }
            i = i + 1;
        }
        false
    }

    /// Adds an empty stream. Its id must be non-zero and new; its name non-empty, at most
    /// 255 bytes and not taken by another stream.
    pub fn create_stream(&mut self, id: u32, name: String) -> (r: Result<(), Error>)
        requires
            old(self).wf(),
            name_size(name@) <= usize::MAX,
        ensures
            final(self).wf(),
            final(self).max_segment_size == old(self).max_segment_size,
            r == if id == 0 {
                Err::<(), Error>(Error::InvalidStreamId)
            } else if stream_index(old(self).streams@, id).is_some() {
                Err(Error::StreamAlreadyExists(id))
            } else if name_size(name@) == 0 || name_size(name@) > MAX_NAME_SIZE || name_taken(
                old(self).streams@,
                name@,
            ) {
                Err(Error::InvalidStreamName)
            } else {
                Ok(())
            },
            r.is_ok() ==> final(self).streams@.len() == old(self).streams@.len() + 1 && stream_index(
                final(self).streams@,
                id,
            ) == Some(old(self).streams@.len() as int) && final(self).streams@.last().topics@.len()
                == 0 && final(self).streams@.last().name@ == name@,
            r.is_err() ==> final(self).streams == old(self).streams,
    {
        if id == 0 {
            return Err(Error::InvalidStreamId);
        }
        if self.find_stream(id).is_some() {
            return Err(Error::StreamAlreadyExists(id));
        }
        let text = name.as_str();
        assert(text@ == name@);
        let size = text.len();
        if size == 0 || size > MAX_NAME_SIZE || self.has_stream_named(&name) {
            return Err(Error::InvalidStreamName);
        }
        let ghost before = self.streams@;
        self.streams.push(Stream { id, name, topics: Vec::new() });
        assert(self.streams@.drop_last() =~= before);
        Ok(())
    }

    /// Adds a topic with empty partitions to a stream.
    pub fn create_topic(
        &mut self,
        stream_id: u32,
        topic_id: u32,
        name: String,
        partitions_count: u32,
    ) -> (r: Result<(), Error>)
        requires
            old(self).wf(),
            name_size(name@) <= usize::MAX,
        ensures
            final(self).wf(),
            final(self).streams@.len() == old(self).streams@.len(),
            match stream_index(old(self).streams@, stream_id) {
                None => r == Err::<(), Error>(Error::StreamNotFound(stream_id)),
                Some(s) => if topic_index(old(self).streams@[s].topics@, topic_id).is_some() {
                    r == Err::<(), Error>(Error::TopicAlreadyExists(topic_id, stream_id))
                } else if topic_id == 0 {
                    r == Err::<(), Error>(Error::InvalidTopicId)
                } else if name_size(name@) == 0 || name_size(name@) > MAX_NAME_SIZE {
                    r == Err::<(), Error>(Error::InvalidTopicName)
                } else if partitions_count == 0 {
                    r == Err::<(), Error>(Error::InvalidTopicPartitions)
                } else {
                    &&& r.is_ok()
                    &&& final(self).streams@[s].topics@.len() == old(self).streams@[s].topics@.len()
                        + 1
                    &&& final(self).streams@[s].topics@.last().id == topic_id
                    &&& final(self).streams@[s].topics@.last().count() == partitions_count
                },
            },
    {
        let s = match self.find_stream(stream_id) {
            None => {
                return Err(Error::StreamNotFound(stream_id));
            },
            Some(s) => s,
        };
        if self.streams[s].find_topic(topic_id).is_some() {
            return Err(Error::TopicAlreadyExists(topic_id, stream_id));
        }
        let topic = Topic::create(stream_id, topic_id, name, partitions_count, self.max_segment_size)?;
        let ghost before = self.streams@;
        self.streams[s].topics.push(topic);
        proof {
            assert forall|i: int| 0 <= i < self.streams@.len() implies (
            #[trigger] self.streams@[i]).wf() by {
                if i != s {
                    assert(self.streams@[i] == before[i]);
                } else {
                    let ts = self.streams@[i].topics@;
                    assert forall|t: int| 0 <= t < ts.len() implies (#[trigger] ts[t]).wf()
                        && ts[t].stream_id == self.streams@[i].id by {
                        if t < ts.len() - 1 {
                            assert(ts[t] == before[i].topics@[t]);
                        }
                    }
                }
            }
        }
        Ok(())
    }

    /// A batch of `n` messages fits the target topic's partitions: their offsets and
    /// segment counts stay within their integer types.
    pub open spec fn batch_fits(&self, stream_id: u32, topic_id: u32, n: nat) -> bool {
        match stream_index(self.streams@, stream_id) {
            None => true,
            Some(s) => match topic_index(self.streams@[s].topics@, topic_id) {
                None => true,
                Some(t) => forall|i: int|
                    0 <= i < self.streams@[s].topics@[t].partitions@.len() ==> {
                        let p = #[trigger] self.streams@[s].topics@[t].partitions@[i];
                        p.current_offset + n <= u64::MAX && p.segments@.len() + n <= usize::MAX
                    },
            },
        }
    }

    /// Whether a batch of `n` messages fits the target topic's partitions.
    pub fn fits_batch(&self, stream_id: u32, topic_id: u32, n: usize) -> (r: bool)
        ensures
            r == self.batch_fits(stream_id, topic_id, n as nat),
    {
        let (s, t) = match self.locate_topic(stream_id, topic_id) {
            Ok(found) => found,
            Err(_) => {
                return true;
            },
        };
        let partitions = &self.streams[s].topics[t].partitions;
        let mut i: usize = 0;
        while i < partitions.len()
            invariant
                i <= partitions@.len(),
                s < self.streams@.len(),
                t < self.streams@[s as int].topics@.len(),
                partitions@ == self.streams@[s as int].topics@[t as int].partitions@,
                stream_index(self.streams@, stream_id) == Some(s as int),
                topic_index(self.streams@[s as int].topics@, topic_id) == Some(t as int),
                forall|k: int|
                    0 <= k < i ==> {
                        let p = #[trigger] partitions@[k];
                        p.current_offset + n <= u64::MAX && p.segments@.len() + n <= usize::MAX
                    },
            decreases partitions@.len() - i,
        {
            let p = &partitions[i];
            if p.current_offset > u64::MAX - n as u64 || p.segments.len() > usize::MAX - n {
                proof {
                    let q = self.streams@[s as int].topics@[t as int].partitions@[i as int];
                    assert(q == *p);
                    assert(!(q.current_offset + n <= u64::MAX && q.segments@.len() + n
                        <= usize::MAX));
                    let ss = stream_index(self.streams@, stream_id).unwrap();
                    let tt = topic_index(self.streams@[ss].topics@, topic_id).unwrap();
                    assert(ss == s as int);
                    assert(tt == t as int);
                    let q2 = self.streams@[ss].topics@[tt].partitions@[i as int];
                    assert(q2 == q);
                }
                return false;
            }
            i = i + 1;
        }
        assert(partitions@ == self.streams@[s as int].topics@[t as int].partitions@);
        true
    }

    /// Appends a batch to a topic of a stream.
    pub fn send_messages(
        &mut self,
        stream_id: u32,
        topic_id: u32,
        kind: KeyKind,
        key: u32,
        batch: &Vec<AppendMessage>,
        timestamp: u64,
    ) -> (r: Result<(), Error>)
        requires
            old(self).wf(),
            old(self).batch_fits(stream_id, topic_id, batch@.len()),
        ensures
            final(self).wf(),
            final(self).clients == old(self).clients,
            match stream_index(old(self).streams@, stream_id) {
                None => r == Err::<(), Error>(Error::StreamNotFound(stream_id))
                    && *final(self) == *old(self),
                Some(s) => match topic_index(old(self).streams@[s].topics@, topic_id) {
                    None => r == Err::<(), Error>(Error::TopicNotFound(topic_id, stream_id))
                        && *final(self) == *old(self),
                    Some(t) => {
                        let ot = old(self).streams@[s].topics@[t];
                        let nt = final(self).streams@[s].topics@[t];
                        &&& final(self).streams@.len() == old(self).streams@.len()
                        &&& forall|i: int|
                            0 <= i < old(self).streams@.len() && i != s
                                ==> #[trigger] final(self).streams@[i] == old(self).streams@[i]
                        &&& final(self).streams@[s].id == old(self).streams@[s].id
                        &&& final(self).streams@[s].name == old(self).streams@[s].name
                        &&& final(self).streams@[s].topics@.len() == old(self).streams@[s].topics@.len()
                        &&& forall|j: int|
                            0 <= j < old(self).streams@[s].topics@.len() && j != t
                                ==> #[trigger] final(self).streams@[s].topics@[j]
                                == old(self).streams@[s].topics@[j]
                        &&& nt.id == ot.id
                        &&& nt.consumer_groups == ot.consumer_groups
                        &&& nt.partitions@.len() == ot.partitions@.len()
                        &&& kind == KeyKind::Balanced ==> nt.cursor == (ot.cursor + 1) % (ot.count() as int)
                        &&& kind != KeyKind::Balanced ==> nt.cursor == ot.cursor
                        &&& match target_partition(kind, key, ot.count(), ot.cursor as nat) {
                            Err(e) => r == Err::<(), Error>(e) && nt.partitions == ot.partitions,
                            Ok(p) => {
                                &&& forall|i: int|
                                    0 <= i < ot.partitions@.len() && i != p - 1
                                        ==> #[trigger] nt.partitions@[i] == ot.partitions@[i]
                                &&& nt.partitions@[p - 1].stored() == ot.partitions@[p - 1].stored()
                                &&& match append_error(batch@) {
                                    Some(e) => r == Err::<(), Error>(e)
                                        && nt.partitions@[p - 1].messages()
                                        == ot.partitions@[p - 1].messages(),
                                    None => r.is_ok() && nt.partitions@[p - 1].messages()
                                        == ot.partitions@[p - 1].messages() + appended(
                                        batch@,
                                        ot.partitions@[p - 1].current_offset as nat,
                                        timestamp,
                                    ),
                                }
                            },
                        }
                    },
                },
            },
    {
        let (s, t) = match self.locate_topic(stream_id, topic_id) {
            Ok(found) => found,
            Err(e) => {
                return Err(e);
            },
        };
        let ghost before = self.streams@;
        let r = self.streams[s].topics[t].append_messages(kind, key, batch, timestamp);
        proof {
            assert forall|i: int| 0 <= i < self.streams@.len() implies (
            #[trigger] self.streams@[i]).wf() by {
                if i != s {
                    assert(self.streams@[i] == before[i]);
                } else {
                    let ts = self.streams@[i].topics@;
                    assert forall|j: int| 0 <= j < ts.len() implies (#[trigger] ts[j]).wf()
                        && ts[j].stream_id == self.streams@[i].id by {
                        if j != t {
                            assert(ts[j] == before[i].topics@[j]);
                        }
                    }
                }
            }
        }
        r
    }

    /// Serves a poll request: rejects a zero count, finds the stream and topic, polls, and
    /// writes the body of the response.
    pub fn poll_messages(
        &mut self,
        command: &PollMessages,
        consumer_type: ConsumerType,
        consumer_id: u32,
        client_id: u32,
        auto_commit: bool,
    ) -> (r: Result<Vec<u8>, Error>)
        requires
            old(self).wf(),
        ensures
            final(self).wf(),
            final(self).clients == old(self).clients,
            final(self).max_segment_size == old(self).max_segment_size,
            command.count == 0 ==> r == Err::<Vec<u8>, Error>(Error::InvalidMessagesCount)
                && *final(self) == *old(self),
            command.count != 0 ==> match stream_index(old(self).streams@, command.stream_id) {
                None => r == Err::<Vec<u8>, Error>(Error::StreamNotFound(command.stream_id))
                    && *final(self) == *old(self),
                Some(s) => match topic_index(old(self).streams@[s].topics@, command.topic_id) {
                    None => r == Err::<Vec<u8>, Error>(
                        Error::TopicNotFound(command.topic_id, command.stream_id),
                    ) && *final(self) == *old(self),
                    Some(t) => {
                        let before = old(self).streams@[s].topics@[t];
                        let after = final(self).streams@[s].topics@[t];
                        &&& final(self).streams@.len() == old(self).streams@.len()
                        &&& forall|i: int|
                            0 <= i < old(self).streams@.len() && i != s
                                ==> #[trigger] final(self).streams@[i] == old(self).streams@[i]
                        &&& final(self).streams@[s].id == old(self).streams@[s].id
                        &&& final(self).streams@[s].name == old(self).streams@[s].name
                        &&& final(self).streams@[s].topics@.len() == old(self).streams@[s].topics@.len()
                        &&& forall|j: int|
                            0 <= j < old(self).streams@[s].topics@.len() && j != t
                                ==> #[trigger] final(self).streams@[s].topics@[j]
                                == old(self).streams@[s].topics@[j]
                        &&& before.polled(
                            after,
                            consumer_type,
                            consumer_id,
                            client_id,
                            command.partition_id,
                            command.kind,
                            command.value,
                            command.count as nat,
                            auto_commit,
                        )
                        &&& match before.poll_reply(
                            consumer_type,
                            consumer_id,
                            client_id,
                            command.partition_id,
                            command.kind,
                            command.value,
                            command.count as nat,
                        ) {
                            Err(e) => r == Err::<Vec<u8>, Error>(e),
                            Ok(ms) => r.is_ok() && r.unwrap()@ == poll_response_body(ms),
                        }
                    },
                },
            },
    {
        if command.count == 0 {
            return Err(Error::InvalidMessagesCount);
        }
        let s = match self.find_stream(command.stream_id) {
            None => {
                return Err(Error::StreamNotFound(command.stream_id));
            },
            Some(s) => s,
        };
        let t = match self.streams[s].find_topic(command.topic_id) {
            None => {
                return Err(Error::TopicNotFound(command.topic_id, command.stream_id));
            },
            Some(t) => t,
        };
        let ghost before = self.streams@;
        let ghost topic_before = self.streams@[s as int].topics@[t as int];
        let polled = self.streams[s].topics[t].poll_messages(
            consumer_type,
            consumer_id,
            client_id,
            command.partition_id,
            command.kind,
            command.value,
            command.count,
            auto_commit,
        );
        proof {
            assert forall|i: int| 0 <= i < self.streams@.len() implies (
            #[trigger] self.streams@[i]).wf() by {
                if i != s {
                    assert(self.streams@[i] == before[i]);
                } else {
                    let ts = self.streams@[i].topics@;
                    assert forall|j: int| 0 <= j < ts.len() implies (#[trigger] ts[j]).wf()
                        && ts[j].stream_id == self.streams@[i].id by {
                        if j != t {
                            assert(ts[j] == before[i].topics@[j]);
                        }
                    }
                }
            }
        }
        let messages = polled?;
        proof {
            match topic_before.routed_partition(
                consumer_type,
                consumer_id,
                client_id,
                command.partition_id,
            ) {
                Ok(Some(p)) => {
                    let pb = topic_before.partitions@[p - 1];
                    lemma_poll_result_len(
                        pb.messages(),
                        pb.stored(),
                        consumer_key(consumer_type, consumer_id),
                        command.kind,
                        command.value,
                        command.count as nat,
                    );
                },
                _ => {
                    assert(views(messages@) =~= Seq::<MessageView>::empty());
                },
            }
        }
        Ok(encode_poll_response(&messages))
    }
}

impl Stream {
    /// The position of the topic with this id, if there is one.
    pub fn find_topic(&self, id: u32) -> (r: Option<usize>)
        ensures
            match r {
                Some(t) => {
                    &&& t < self.topics@.len()
                    &&& self.topics@[t as int].id == id
                    &&& topic_index(self.topics@, id) == Some(t as int)
                },
                None => topic_index(self.topics@, id).is_none(),
            },
    {
        proof {
            lemma_topic_index_id(self.topics@, id);
        }
        let mut i: usize = self.topics.len();
        assert(self.topics@.take(i as int) =~= self.topics@);
        while i > 0
            invariant
                i <= self.topics@.len(),
                topic_index(self.topics@, id) == topic_index(self.topics@.take(i as int), id),
            decreases i,
        {
            assert(self.topics@.take(i as int).drop_last() =~= self.topics@.take(i - 1));
            if self.topics[i - 1].id == id {
                return Some(i - 1);
            }
            i = i - 1;
        }
        assert(self.topics@.take(0) =~= Seq::<Topic>::empty());
        None
    }
}

proof fn lemma_stream_index_same_ids(a: Seq<Stream>, b: Seq<Stream>, id: u32)
    requires
        a.len() == b.len(),
        forall|i: int| 0 <= i < a.len() ==> (#[trigger] a[i]).id == b[i].id,
    ensures
        stream_index(a, id) == stream_index(b, id),
    decreases a.len(),
{
    if a.len() > 0 {
        lemma_stream_index_same_ids(a.drop_last(), b.drop_last(), id);
    }
}

proof fn lemma_topic_index_same_ids(a: Seq<Topic>, b: Seq<Topic>, id: u32)
    requires
        a.len() == b.len(),
        forall|i: int| 0 <= i < a.len() ==> (#[trigger] a[i]).id == b[i].id,
    ensures
        topic_index(a, id) == topic_index(b, id),
    decreases a.len(),
{
    if a.len() > 0 {
        lemma_topic_index_same_ids(a.drop_last(), b.drop_last(), id);
    }
}

proof fn lemma_group_index_same_ids(a: Seq<ConsumerGroup>, b: Seq<ConsumerGroup>, id: u32)
    requires
        a.len() == b.len(),
        forall|i: int| 0 <= i < a.len() ==> (#[trigger] a[i]).id == b[i].id,
    ensures
        group_index(a, id) == group_index(b, id),
    decreases a.len(),
{
    if a.len() > 0 {
        lemma_group_index_same_ids(a.drop_last(), b.drop_last(), id);
    }
}

proof fn lemma_stream_index_id(streams: Seq<Stream>, id: u32)
    ensures
        match stream_index(streams, id) {
            Some(s) => 0 <= s < streams.len() && streams[s].id == id,
            None => true,
        },
    decreases streams.len(),
{
    if streams.len() > 0 && streams.last().id != id {
        lemma_stream_index_id(streams.drop_last(), id);
    }
}

proof fn lemma_topic_index_id(topics: Seq<Topic>, id: u32)
    ensures
        match topic_index(topics, id) {
            Some(t) => 0 <= t < topics.len() && topics[t].id == id,
            None => true,
        },
    decreases topics.len(),
{
    if topics.len() > 0 && topics.last().id != id {
        lemma_topic_index_id(topics.drop_last(), id);
    }
}

} // verus!
