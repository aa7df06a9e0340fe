use crate::error::Error;
use vstd::prelude::*;

verus! {

/// A consumer group that a client joined.
#[derive(Debug, Clone, Copy, PartialEq, Eq, Structural)]
pub struct Membership {
    pub stream_id: u32,
    pub topic_id: u32,
    pub group_id: u32,
}

/// A connected client.
#[derive(Debug)]
pub struct ClientInfo {
    pub id: u32,
    pub address: String,
    pub memberships: Vec<Membership>,
}

/// The connected clients, each with an id handed out in increasing order.
#[derive(Debug)]
pub struct ClientRegistry {
    /// The id the next client to connect receives.
    pub next_id: u32,
    pub clients: Vec<ClientInfo>,
}

impl ClientRegistry {
    pub open spec fn ids(&self) -> Seq<u32> {
        self.clients@.map_values(|c: ClientInfo| c.id)
    }

    /// Ids rise in connection order and stay below the next one.
    pub open spec fn wf(&self) -> bool {
        &&& self.next_id >= 1
        &&& forall|i: int| 0 <= i < self.clients@.len() ==> (#[trigger] self.clients@[i]).id < self.next_id
        &&& forall|i: int, j: int|
            0 <= i < j < self.clients@.len() ==> (#[trigger] self.clients@[i]).id < (
            #[trigger] self.clients@[j]).id
    }

    pub fn new() -> (r: ClientRegistry)
        ensures
            r.wf(),
            r.next_id == 1,
            r.clients@.len() == 0,
    {
        ClientRegistry { next_id: 1, clients: Vec::new() }
    }

    /// Registers a connection under a fresh id; fails once every id has been handed out.
    pub fn connect(&mut self, address: String) -> (r: Result<u32, Error>)
        requires
            old(self).wf(),
        ensures
            final(self).wf(),
            old(self).next_id == u32::MAX ==> r == Err::<u32, Error>(Error::InvalidClientId)
                && final(self).ids() == old(self).ids(),
            old(self).next_id < u32::MAX ==> {
                &&& r == Ok::<u32, Error>(old(self).next_id)
                &&& final(self).ids() == old(self).ids().push(old(self).next_id)
                &&& final(self).next_id == old(self).next_id + 1
                &&& final(self).clients@.last().memberships@.len() == 0
            },
    {
        if self.next_id == u32::MAX {
            return Err(Error::InvalidClientId);
        }
        let id = self.next_id;
        let ghost before = self.ids();
        self.clients.push(ClientInfo { id, address, memberships: Vec::new() });
        self.next_id = id + 1;
        assert(self.ids() =~= before.push(id));
        Ok(id)
    }

    /// The position of a client, if it is connected.
    pub fn find(&self, id: u32) -> (r: Option<usize>)
        ensures
            match r {
                Some(i) => i < self.clients@.len() && self.clients@[i as int].id == id,
                None => !self.ids().contains(id),
            },
    {
        let mut i: usize = 0;
        while i < self.clients.len()
            invariant
                i <= self.clients@.len(),
                forall|j: int| 0 <= j < i ==> (#[trigger] self.clients@[j]).id != id,
            decreases self.clients@.len() - i,
        {
            if self.clients[i].id == id {
                return Some(i);
            }
            i = i + 1;
        }
        proof {
            if self.ids().contains(id) {
                let j = choose|j: int| 0 <= j < self.ids().len() && self.ids()[j] == id;
                assert(self.clients@[j].id == id);
            }
        }
        None
    }

    /// The entry of a connected client.
    pub fn get_client(&self, id: u32) -> (r: Option<&ClientInfo>)
        ensures
            match r {
                Some(c) => c.id == id && self.ids().contains(id),
                None => !self.ids().contains(id),
            },
    {
        match self.find(id) {
            Some(i) => {
                assert(self.ids()[i as int] == id);
                Some(&self.clients[i])
            },
            None => None,
        }
    }

    /// Records that a client joined a consumer group.
    pub fn add_membership(&mut self, id: u32, membership: Membership) -> (r: Result<(), Error>)
        requires
            old(self).wf(),
        ensures
            final(self).wf(),
            final(self).ids() == old(self).ids(),
            final(self).next_id == old(self).next_id,
            old(self).ids().contains(id) <==> r.is_ok(),
            r.is_err() ==> r == Err::<(), Error>(Error::ClientNotFound(id)),
    {
        match self.find(id) {
            None => Err(Error::ClientNotFound(id)),
            Some(i) => {
                let ghost before = self.clients@;
                let ghost ids = self.ids();
                assert(ids[i as int] == id);
                self.clients[i].memberships.push(membership);
                assert(self.ids() =~= ids);
                proof {
                    assert forall|a: int, b: int|
                        0 <= a < b < self.clients@.len() implies (#[trigger] self.clients@[a]).id
                        < (#[trigger] self.clients@[b]).id by {
                        assert(self.clients@[a].id == before[a].id);
                        assert(self.clients@[b].id == before[b].id);
                    }
                }
                Ok(())
            },
        }
    }

    /// Removes a disconnected client and hands back its entry.
    pub fn disconnect(&mut self, id: u32) -> (r: Result<ClientInfo, Error>)
        requires
            old(self).wf(),
        ensures
            final(self).wf(),
            final(self).next_id == old(self).next_id,
            match r {
                Ok(c) => {
                    &&& c.id == id
                    &&& old(self).ids().contains(id)
                    &&& c == old(self).clients@[old(self).ids().index_of(id)]
                    &&& final(self).ids() == old(self).ids().remove(old(self).ids().index_of(id))
                },
                Err(e) => e == Error::ClientNotFound(id) && !old(self).ids().contains(id)
                    && final(self).ids() == old(self).ids(),
            },
    {
        match self.find(id) {
            None => Err(Error::ClientNotFound(id)),
            Some(i) => {
                let ghost before = self.clients@;
                let ghost ids = self.ids();
                proof {
                    assert(ids[i as int] == id);
                    assert(ids.contains(id));
                    let k = ids.index_of(id);
                    assert(ids[k] == id);
                    if k < i {
                        assert(before[k].id < before[i as int].id);
                    } else if k > i {
                        assert(before[i as int].id < before[k].id);
                    }
                }
                let c = self.clients.remove(i);
                assert(self.ids() =~= ids.remove(i as int));
                proof {
                    assert forall|a: int, b: int|
                        0 <= a < b < self.clients@.len() implies (#[trigger] self.clients@[a]).id
                        < (#[trigger] self.clients@[b]).id by {
                        let oa = if a < i {
                            a
                        } else {
                            a + 1
                        };
                        let ob = if b < i {
                            b
                        } else {
                            b + 1
                        };
                        assert(self.clients@[a] == before[oa]);
                        assert(self.clients@[b] == before[ob]);
                    }
                    assert forall|a: int| 0 <= a < self.clients@.len() implies (
                    #[trigger] self.clients@[a]).id < self.next_id by {
                        if a < i {
                            assert(self.clients@[a] == before[a]);
                        } else {
                            assert(self.clients@[a] == before[a + 1]);
                        }
                    }
                }
                Ok(c)
            },
        }
    }
}

} // verus!
