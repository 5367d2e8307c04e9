//! The browsers that are connected.

use vstd::prelude::*;

use crate::protocol::model::ClientInfo;

verus! {

/// A browser under the number of its connection.
#[derive(Debug)]
pub struct Client {
    pub conn_id: u32,
    pub info: ClientInfo,
}

/// The browsers that are connected, in the order in which they came.
#[derive(Debug)]
pub struct Clients {
    pub clients: Vec<Client>,
}

/// The clients that do not have this number.
pub open spec fn clients_without(cs: Seq<Client>, conn_id: u32) -> Seq<Client>
    decreases cs.len(),
{
    if cs.len() == 0 {
        cs
    } else if cs.last().conn_id == conn_id {
        clients_without(cs.drop_last(), conn_id)
    } else {
        clients_without(cs.drop_last(), conn_id).push(cs.last())
    }
}

/// The addresses of clients.
pub open spec fn addresses(cs: Seq<Client>) -> Seq<Seq<char>> {
    cs.map_values(|c: Client| c.info.ip@)
}

impl Clients {
    pub fn new() -> (r: Self)
        ensures
            r.clients@.len() == 0,
    {
        Clients { clients: Vec::new() }
    }

    pub fn register(&mut self, conn_id: u32, info: ClientInfo)
        ensures
            final(self).clients@ == old(self).clients@.push((Client { conn_id, info })),
    {
        self.clients.push(Client { conn_id, info });
    }

    pub fn unregister(&mut self, conn_id: u32)
        ensures
            final(self).clients@ == clients_without(old(self).clients@, conn_id),
    {
        let ghost before = self.clients@;
        let ghost mut done: int = 0;
        let mut i: usize = 0;
        proof {
            assert(before.take(0) =~= Seq::empty());
            assert(before.skip(0) =~= before);
            assert(clients_without(before.take(0), conn_id) + before.skip(0) =~= before);
        }
        while i < self.clients.len()
            invariant
                before == old(self).clients@,
                0 <= done <= before.len(),
                i <= self.clients@.len(),
                i == clients_without(before.take(done), conn_id).len(),
                self.clients@ == clients_without(before.take(done), conn_id) + before.skip(done),
            decreases self.clients@.len() - i,
        {
            let ghost now = self.clients@;
            let ghost kept = clients_without(before.take(done), conn_id);
            proof {
                assert(now[i as int] == before[done]);
                assert(before.take(done + 1).drop_last() =~= before.take(done));
                assert(before.take(done + 1).last() == before[done]);
            }
            if self.clients[i].conn_id == conn_id {
                self.clients.remove(i);
                assert(self.clients@ =~= kept + before.skip(done + 1));
            } else {
                i = i + 1;
                assert(now =~= kept.push(before[done]) + before.skip(done + 1));
            }
            proof {
                done = done + 1;
            }
        }
        proof {
            assert(before.skip(done).len() == 0);
            assert(before.take(done) =~= before);
            assert(self.clients@ =~= clients_without(before, conn_id));
        }
    }

    /// The addresses of the clients, for the answer to a ping.
    pub fn client_ips(&self) -> (r: Vec<String>)
        ensures
            r.deep_view() == addresses(self.clients@),
    {
        let ghost all = addresses(self.clients@);
        let mut r: Vec<String> = Vec::new();
        let mut i: usize = 0;
        assert(r.deep_view() =~= all.take(0));
        while i < self.clients.len()
            invariant
                i <= self.clients@.len(),
                all == addresses(self.clients@),
                r.deep_view() == all.take(i as int),
            decreases self.clients@.len() - i,
        {
            let ghost before = r.deep_view();
            let ip = self.clients[i].info.ip.clone();
            r.push(ip);
            assert(r.deep_view() =~= before.push(ip@));
            assert(all.take(i + 1) =~= all.take(i as int).push(all[i as int]));
            i = i + 1;
        }
        assert(all.take(i as int) =~= all);
        r
    }
}

/// A client that leaves takes its own entries with it and no other.
pub proof fn lemma_unregister_removes_one_client(cs: Seq<Client>, conn_id: u32)
    ensures
        forall|c: Client| #[trigger]
            clients_without(cs, conn_id).contains(c) <==> cs.contains(c) && c.conn_id != conn_id,
    decreases cs.len(),
{
    if cs.len() > 0 {
        let front = cs.drop_last();
        let last = cs.last();
        let kept = clients_without(front, conn_id);
        lemma_unregister_removes_one_client(front, conn_id);
        assert forall|c: Client| #[trigger] clients_without(cs, conn_id).contains(c) implies cs.contains(
            c,
        ) && c.conn_id != conn_id by {
            let r = clients_without(cs, conn_id);
            let k = choose|k: int| 0 <= k < r.len() && r[k] == c;
            if k < kept.len() {
                assert(kept.contains(c));
                let m = choose|m: int| 0 <= m < front.len() && front[m] == c;
                assert(cs[m] == c);
            } else {
                assert(cs[cs.len() - 1] == c);
            }
        }
        assert forall|c: Client| cs.contains(c) && c.conn_id != conn_id implies
        #[trigger] clients_without(cs, conn_id).contains(c) by {
            let r = clients_without(cs, conn_id);
            let k = choose|k: int| 0 <= k < cs.len() && cs[k] == c;
            if k < front.len() {
                assert(front[k] == c);
                assert(kept.contains(c));
                let m = choose|m: int| 0 <= m < kept.len() && kept[m] == c;
                assert(r[m] == c);
            } else {
                assert(r[r.len() - 1] == c);
            }
        }
    }
}

// ----- Letting connections in -----

/// Counts the connections that the server holds.
#[derive(Debug, Clone, Copy, PartialEq, Eq, Structural)]
pub struct Admission {
    pub active: u32,
    pub next_conn_id: u32,
}

impl Admission {
    pub fn new() -> (r: Self)
        ensures
            r == (Admission { active: 0, next_conn_id: 1 }),
    {
        Admission { active: 0, next_conn_id: 1 }
    }

    /// Lets a connection in under the next number, unless the server holds as many as it may.
    pub fn let_in(&mut self, max_clients: u32) -> (r: Option<u32>)
        requires
            old(self).next_conn_id < u32::MAX,
        ensures
            old(self).active < max_clients ==> r == Some(old(self).next_conn_id) && *final(self)
                == (Admission {
                active: (old(self).active + 1) as u32,
                next_conn_id: (old(self).next_conn_id + 1) as u32,
            }),
            old(self).active >= max_clients ==> r is None && *final(self) == *old(self),
    {
        if self.active >= max_clients {
            return None;
        }
        let conn_id: u32 = self.next_conn_id;
        self.next_conn_id = conn_id + 1;
        self.active = self.active + 1;
        Some(conn_id)
    }

    /// A connection ended.
    pub fn release(&mut self)
        requires
            old(self).active > 0,
        ensures
            *final(self) == (Admission { active: (old(self).active - 1) as u32, ..*old(self) }),
    {
        self.active = self.active - 1;
    }
}

// ----- Listening to the radio -----

/// Counts the browsers that listen to the radio; the receiver runs while there are any.
#[derive(Debug, Clone, Copy, PartialEq, Eq, Structural)]
pub struct RfDebugListeners {
    pub count: u32,
    pub enabled: bool,
}

impl RfDebugListeners {
    /// The receiver runs exactly while somebody listens.
    pub open spec fn wf(self) -> bool {
        self.enabled == (self.count > 0)
    }

    pub fn new() -> (r: Self)
        ensures
            r.wf(),
            r.count == 0,
    {
        RfDebugListeners { count: 0, enabled: false }
    }

    /// A browser starts to listen; says whether the receiver has to be started.
    pub fn start(&mut self, was_listening: bool) -> (r: bool)
        requires
            old(self).wf(),
            old(self).count < u32::MAX,
        ensures
            final(self).wf(),
            r == !was_listening,
            final(self).count == if was_listening {
                old(self).count
            } else {
                (old(self).count + 1) as u32
            },
    {
        if was_listening {
            return false;
        }
        self.count = self.count + 1;
        self.enabled = true;
        true
    }

    /// A browser stops listening or leaves.
    pub fn release(&mut self, was_listening: bool)
        requires
            old(self).wf(),
            was_listening ==> old(self).count > 0,
        ensures
            final(self).wf(),
            final(self).count == if was_listening {
                (old(self).count - 1) as u32
            } else {
                old(self).count
            },
    {
        if !was_listening {
            return;
        }
        self.count = self.count - 1;
        if self.count == 0 {
            self.enabled = false;
        }
    }
}

/// The clients that stay keep their order.
pub proof fn lemma_unregister_keeps_order(cs: Seq<Client>, conn_id: u32)
    ensures
        clients_without(cs, conn_id) == cs.filter(|c: Client| c.conn_id != conn_id),
    decreases cs.len(),
{
    reveal(Seq::filter);
    if cs.len() > 0 {
        lemma_unregister_keeps_order(cs.drop_last(), conn_id);
    }
}

/// Every client is told of by its address, in the order in which they came.
pub proof fn lemma_every_address_is_told(cs: Seq<Client>)
    ensures
        addresses(cs).len() == cs.len(),
        forall|i: int| 0 <= i < cs.len() ==> #[trigger] addresses(cs)[i] == cs[i].info.ip@,
{
}

} // verus!
