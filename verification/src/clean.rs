use std::collections::HashMap;
use vstd::prelude::*;

use crate::error::DisconnectReason;

verus! {

/// Seconds without a UDP ping after which a client's crypt state is reset.
pub const UDP_SILENCE_SECS: u64 = 30;

/// Seconds without a TCP ping after which a client is dropped.
pub const TCP_SILENCE_SECS: u64 = 10;

/// Milliseconds without a good decrypt after which a client's crypt state is reset.
pub const STALE_CRYPT_MILLIS: u128 = 8000;

/// What the cleaning pass observed of one connected client.
#[derive(Debug, Clone, Copy, PartialEq, Eq, Structural)]
pub struct ClientStatus {
    pub session_id: u32,
    /// The client's outgoing message channel has been closed.
    pub publisher_closed: bool,
    /// Whole seconds since the last UDP ping of the client.
    pub secs_since_udp_ping: u64,
    /// Whole seconds since the last TCP ping of the client.
    pub secs_since_tcp_ping: u64,
    /// Milliseconds since the last packet of the client that decrypted well.
    pub millis_since_last_good: u128,
}

/// What the cleaning pass does with one client.
#[derive(Debug, Clone, Copy, PartialEq, Eq, Structural)]
pub enum ClientVerdict {
    Keep,
    /// Ask the client to set its crypt state up again; `udp_silent` when this is because
    /// no UDP ping came in for too long (that case is counted in the crypt-reset metric).
    ResetCrypt { udp_silent: bool },
    Disconnect(DisconnectReason),
}

impl ClientStatus {
    /// The verdict on a client, checks taken in order: a closed publisher, UDP silence,
    /// TCP silence, a stale crypt state.
    pub open spec fn verdict(self) -> ClientVerdict {
        if self.publisher_closed {
            ClientVerdict::Disconnect(DisconnectReason::LostReceivingChannel)
        } else if self.secs_since_udp_ping > UDP_SILENCE_SECS {
            ClientVerdict::ResetCrypt { udp_silent: true }
        } else if self.secs_since_tcp_ping > TCP_SILENCE_SECS {
            ClientVerdict::Disconnect(DisconnectReason::ClientTimedOutTcp)
        } else if self.millis_since_last_good > STALE_CRYPT_MILLIS {
            ClientVerdict::ResetCrypt { udp_silent: false }
        } else {
            ClientVerdict::Keep
        }
    }
}

/// A closed publisher disconnects a client (LostReceivingChannel); otherwise more than 30 s
/// of UDP silence resets its crypt state, counted as UDP silence; otherwise more than 10 s of
/// TCP silence disconnects it (ClientTimedOutTcp); otherwise more than 8000 ms since its last
/// good packet resets its crypt state; otherwise it is kept.
pub proof fn lemma_verdict_table(c: ClientStatus)
    ensures
        c.publisher_closed ==> c.verdict() == ClientVerdict::Disconnect(
            DisconnectReason::LostReceivingChannel,
        ),
        !c.publisher_closed && c.secs_since_udp_ping > 30 ==> c.verdict() == (
        ClientVerdict::ResetCrypt { udp_silent: true }),
        !c.publisher_closed && c.secs_since_udp_ping <= 30 && c.secs_since_tcp_ping > 10
            ==> c.verdict() == ClientVerdict::Disconnect(DisconnectReason::ClientTimedOutTcp),
        !c.publisher_closed && c.secs_since_udp_ping <= 30 && c.secs_since_tcp_ping <= 10
            && c.millis_since_last_good > 8000 ==> c.verdict() == (ClientVerdict::ResetCrypt {
            udp_silent: false,
        }),
        !c.publisher_closed && c.secs_since_udp_ping <= 30 && c.secs_since_tcp_ping <= 10
            && c.millis_since_last_good <= 8000 ==> c.verdict() == ClientVerdict::Keep,
        c.disconnects() <==> (c.publisher_closed || (c.secs_since_udp_ping <= 30
            && c.secs_since_tcp_ping > 10)),
        c.resets_crypt() <==> (!c.publisher_closed && (c.secs_since_udp_ping > 30 || (
        c.secs_since_tcp_ping <= 10 && c.millis_since_last_good > 8000))),
        (c.verdict() == (ClientVerdict::ResetCrypt { udp_silent: true })) <==> (
        !c.publisher_closed && c.secs_since_udp_ping > 30),
{
}

/// Decides what happens to one client in a cleaning pass.
pub fn check_client(status: &ClientStatus) -> (v: ClientVerdict)
    ensures
        v == status.verdict(),
        // the verdict by the status fields, checks taken in order
        status.publisher_closed ==> v == ClientVerdict::Disconnect(
            DisconnectReason::LostReceivingChannel,
        ),
        !status.publisher_closed && status.secs_since_udp_ping > 30 ==> v == (
        ClientVerdict::ResetCrypt { udp_silent: true }),
        !status.publisher_closed && status.secs_since_udp_ping <= 30
            && status.secs_since_tcp_ping > 10 ==> v == ClientVerdict::Disconnect(
            DisconnectReason::ClientTimedOutTcp,
        ),
        !status.publisher_closed && status.secs_since_udp_ping <= 30
            && status.secs_since_tcp_ping <= 10 && status.millis_since_last_good > 8000 ==> v == (
        ClientVerdict::ResetCrypt { udp_silent: false }),
        !status.publisher_closed && status.secs_since_udp_ping <= 30
            && status.secs_since_tcp_ping <= 10 && status.millis_since_last_good <= 8000 ==> v
            == ClientVerdict::Keep,
{
    proof {
        lemma_verdict_table(*status);
    }
    if status.publisher_closed {
        ClientVerdict::Disconnect(DisconnectReason::LostReceivingChannel)
    } else if status.secs_since_udp_ping > UDP_SILENCE_SECS {
        ClientVerdict::ResetCrypt { udp_silent: true }
    } else if status.secs_since_tcp_ping > TCP_SILENCE_SECS {
        ClientVerdict::Disconnect(DisconnectReason::ClientTimedOutTcp)
    } else if status.millis_since_last_good > STALE_CRYPT_MILLIS {
        ClientVerdict::ResetCrypt { udp_silent: false }
    } else {
        ClientVerdict::Keep
    }
}

/// The disconnect map after inserting the queued entries in order (a later entry for the
/// same session wins).
pub open spec fn queued_map(queued: Seq<(u32, DisconnectReason)>) -> Map<u32, DisconnectReason>
    decreases queued.len(),
{
    if queued.len() == 0 {
        Map::empty()
    } else {
        queued_map(queued.drop_last()).insert(queued.last().0, queued.last().1)
    }
}

/// The disconnect map after the clients whose verdict disconnects them were inserted,
/// in order, into `base`.
pub open spec fn verdict_map(base: Map<u32, DisconnectReason>, clients: Seq<ClientStatus>) -> Map<
    u32,
    DisconnectReason,
>
    decreases clients.len(),
{
    if clients.len() == 0 {
        base
    } else {
        let prev = verdict_map(base, clients.drop_last());
        match clients.last().verdict() {
            ClientVerdict::Disconnect(r) => prev.insert(clients.last().session_id, r),
            _ => prev,
        }
    }
}

/// The positions, in increasing order, of the clients whose crypt state is reset.
pub open spec fn reset_positions(clients: Seq<ClientStatus>) -> Seq<usize>
    decreases clients.len(),
{
    if clients.len() == 0 {
        Seq::empty()
    } else {
        let prev = reset_positions(clients.drop_last());
        match clients.last().verdict() {
            ClientVerdict::ResetCrypt { .. } => prev.push((clients.len() - 1) as usize),
            _ => prev,
        }
    }
}

/// How many clients are reset because they were silent on UDP.
pub open spec fn udp_silent_count(clients: Seq<ClientStatus>) -> nat
    decreases clients.len(),
{
    if clients.len() == 0 {
        0
    } else {
        let prev = udp_silent_count(clients.drop_last());
        if clients.last().verdict() == (ClientVerdict::ResetCrypt { udp_silent: true }) {
            prev + 1
        } else {
            prev
        }
    }
}

impl ClientStatus {
    /// The client's own verdict removes it from the server.
    pub open spec fn disconnects(self) -> bool {
        self.verdict() is Disconnect
    }

    /// The client's own verdict resets its crypt state.
    pub open spec fn resets_crypt(self) -> bool {
        self.verdict() is ResetCrypt
    }
}

/// A queued session is in the queued map, and exactly those are.
proof fn lemma_queued_map_dom(queued: Seq<(u32, DisconnectReason)>)
    ensures
        forall|id: u32|
            #![trigger queued_map(queued).contains_key(id)]
            queued_map(queued).contains_key(id) <==> exists|i: int|
                0 <= i < queued.len() && (#[trigger] queued[i]).0 == id,
    decreases queued.len(),
{
    if queued.len() > 0 {
        let prev = queued.drop_last();
        lemma_queued_map_dom(prev);
        assert(queued_map(queued) == queued_map(prev).insert(queued.last().0, queued.last().1));
        assert forall|id: u32| queued_map(queued).contains_key(id) implies exists|i: int|
            0 <= i < queued.len() && (#[trigger] queued[i]).0 == id by {
            if id == queued.last().0 {
                assert(queued[queued.len() - 1].0 == id);
            } else {
                assert(queued_map(prev).contains_key(id));
                let i = choose|i: int| 0 <= i < prev.len() && (#[trigger] prev[i]).0 == id;
                assert(queued[i] == prev[i]);
            }
        }
        assert forall|id: u32|
            (exists|i: int| 0 <= i < queued.len() && (#[trigger] queued[i]).0 == id) implies
            queued_map(queued).contains_key(id) by {
            let i = choose|i: int| 0 <= i < queued.len() && (#[trigger] queued[i]).0 == id;
            if i < queued.len() - 1 {
                assert(prev[i] == queued[i]);
                assert(queued_map(prev).contains_key(id));
            } else {
                assert(queued.last() == queued[i]);
            }
        }
    }
}

/// The last queued entry of a session gives its reason in the queued map.
proof fn lemma_queued_map_value(queued: Seq<(u32, DisconnectReason)>, i: int)
    requires
        0 <= i < queued.len(),
        forall|k: int| i < k < queued.len() ==> (#[trigger] queued[k]).0 != queued[i].0,
    ensures
        queued_map(queued).contains_key(queued[i].0),
        queued_map(queued)[queued[i].0] == queued[i].1,
    decreases queued.len(),
{
    if i < queued.len() - 1 {
        let prev = queued.drop_last();
        assert(prev[i] == queued[i]);
        assert forall|k: int| i < k < prev.len() implies (#[trigger] prev[k]).0 != prev[i].0 by {
            assert(prev[k] == queued[k]);
        }
        lemma_queued_map_value(prev, i);
        assert(queued[queued.len() - 1].0 != queued[i].0);
    }
}

/// Which sessions the client checks add to `base`.
proof fn lemma_verdict_map_dom(base: Map<u32, DisconnectReason>, clients: Seq<ClientStatus>)
    ensures
        forall|id: u32|
            #![trigger verdict_map(base, clients).contains_key(id)]
            verdict_map(base, clients).contains_key(id) <==> (base.contains_key(id) || exists|j: int|
                0 <= j < clients.len() && (#[trigger] clients[j]).session_id == id
                    && clients[j].disconnects()),
    decreases clients.len(),
{
    if clients.len() > 0 {
        let prev = clients.drop_last();
        let last = clients.len() - 1;
        assert(clients.last() == clients[last]);
        lemma_verdict_map_dom(base, prev);
        assert forall|id: u32| verdict_map(base, clients).contains_key(id) implies (base.contains_key(
            id,
        ) || exists|j: int|
            0 <= j < clients.len() && (#[trigger] clients[j]).session_id == id
                && clients[j].disconnects()) by {
            if !base.contains_key(id) {
                if verdict_map(base, prev).contains_key(id) {
                    assert(exists|j: int|
                        0 <= j < prev.len() && (#[trigger] prev[j]).session_id == id
                            && prev[j].disconnects());
                    let j = choose|j: int|
                        0 <= j < prev.len() && (#[trigger] prev[j]).session_id == id
                            && prev[j].disconnects();
                    assert(clients[j] == prev[j]);
                } else {
                    assert(clients[last].session_id == id && clients[last].disconnects());
                }
            }
        }
        assert forall|id: u32|
            (base.contains_key(id) || exists|j: int|
                0 <= j < clients.len() && (#[trigger] clients[j]).session_id == id
                    && clients[j].disconnects()) implies verdict_map(base, clients).contains_key(
            id,
        ) by {
            if base.contains_key(id) {
                assert(verdict_map(base, prev).contains_key(id));
            } else {
                let j = choose|j: int|
                    0 <= j < clients.len() && (#[trigger] clients[j]).session_id == id
                        && clients[j].disconnects();
                if j < last {
                    assert(prev[j] == clients[j]);
                    assert(verdict_map(base, prev).contains_key(id));
                }
            }
        }
    }
}

/// A session that no client check disconnects keeps what `base` says of it.
proof fn lemma_verdict_map_keeps(
    base: Map<u32, DisconnectReason>,
    clients: Seq<ClientStatus>,
    id: u32,
)
    requires
        forall|j: int|
            0 <= j < clients.len() && (#[trigger] clients[j]).session_id == id
                ==> !clients[j].disconnects(),
    ensures
        verdict_map(base, clients).contains_key(id) == base.contains_key(id),
        verdict_map(base, clients)[id] == base[id],
    decreases clients.len(),
{
    if clients.len() > 0 {
        let prev = clients.drop_last();
        assert forall|j: int|
            0 <= j < prev.len() && (#[trigger] prev[j]).session_id == id implies !prev[j].disconnects() by {
            assert(clients[j] == prev[j]);
        }
        lemma_verdict_map_keeps(base, prev, id);
        assert(clients[clients.len() - 1] == clients.last());
    }
}

/// The last client check that disconnects a session gives its reason.
proof fn lemma_verdict_map_value(base: Map<u32, DisconnectReason>, clients: Seq<ClientStatus>, j: int)
    requires
        0 <= j < clients.len(),
        clients[j].disconnects(),
        forall|k: int|
            j < k < clients.len() ==> (#[trigger] clients[k]).session_id != clients[j].session_id,
    ensures
        verdict_map(base, clients).contains_key(clients[j].session_id),
        verdict_map(base, clients)[clients[j].session_id] == clients[j].verdict()->Disconnect_0,
    decreases clients.len(),
{
    let prev = clients.drop_last();
    if j < clients.len() - 1 {
        assert(prev[j] == clients[j]);
        assert forall|k: int| j < k < prev.len() implies (#[trigger] prev[k]).session_id
            != prev[j].session_id by {
            assert(prev[k] == clients[k]);
        }
        lemma_verdict_map_value(base, prev, j);
        assert(clients[clients.len() - 1].session_id != clients[j].session_id);
    } else {
        assert(clients.last() == clients[j]);
    }
}

/// The reset positions are increasing, in range, and exactly those of the clients whose
/// verdict resets their crypt state.
proof fn lemma_reset_positions(clients: Seq<ClientStatus>)
    requires
        clients.len() <= usize::MAX,
    ensures
        forall|k: int|
            0 <= k < reset_positions(clients).len() ==> #[trigger] reset_positions(clients)[k]
                < clients.len() && clients[reset_positions(clients)[k] as int].resets_crypt(),
        forall|k1: int, k2: int|
            0 <= k1 < k2 < reset_positions(clients).len() ==> #[trigger] reset_positions(
                clients,
            )[k1] < #[trigger] reset_positions(clients)[k2],
        forall|j: int|
            0 <= j < clients.len() && (#[trigger] clients[j]).resets_crypt()
                ==> reset_positions(clients).contains(j as usize),
    decreases clients.len(),
{
    if clients.len() > 0 {
        let prev = clients.drop_last();
        lemma_reset_positions(prev);
        let r = reset_positions(clients);
        let rp = reset_positions(prev);
        let last = (clients.len() - 1) as int;
        assert(clients.last() == clients[last]);
        if clients[last].resets_crypt() {
            assert(r == rp.push(last as usize));
        } else {
            assert(r == rp);
        }
        assert forall|k: int| 0 <= k < r.len() implies #[trigger] r[k] < clients.len()
            && clients[r[k] as int].resets_crypt() by {
            if k < rp.len() {
                assert(r[k] == rp[k]);
                assert(clients[rp[k] as int] == prev[rp[k] as int]);
            }
        }
        assert forall|k1: int, k2: int| 0 <= k1 < k2 < r.len() implies #[trigger] r[k1]
            < #[trigger] r[k2] by {
            assert(r[k1] == rp[k1]);
            assert(rp[k1] < prev.len());
            if k2 < rp.len() {
                assert(r[k2] == rp[k2]);
            }
        }
        assert forall|j: int| 0 <= j < clients.len() && (#[trigger] clients[j]).resets_crypt()
            implies r.contains(j as usize) by {
            if j < last {
                assert(prev[j] == clients[j]);
                assert(rp.contains(j as usize));
                let k = choose|k: int| 0 <= k < rp.len() && rp[k] == j as usize;
                assert(r[k] == rp[k]);
            } else {
                assert(r[r.len() - 1] == j as usize);
            }
        }
    }
}

/// The UDP-silence count is the number of clients whose publisher is open and who sent no
/// UDP ping for more than 30 s.
pub proof fn lemma_udp_silent_count(clients: Seq<ClientStatus>)
    ensures
        udp_silent_count(clients) == clients.filter(
            |c: ClientStatus| !c.publisher_closed && c.secs_since_udp_ping > 30,
        ).len(),
    decreases clients.len(),
{
    reveal_with_fuel(Seq::<_>::filter, 1);
    if clients.len() > 0 {
        lemma_udp_silent_count(clients.drop_last());
        lemma_verdict_table(clients.last());
    }
}

/// The outcome of one cleaning pass.
pub struct CleanPlan {
    /// The sessions to disconnect, each with its reason.
    pub disconnect: HashMap<u32, DisconnectReason>,
    /// Positions in the client list of the clients whose crypt state is reset.
    pub reset_crypt: Vec<usize>,
    /// By how much the crypt-reset metric grows.
    pub crypt_resets: u64,
}

/// Plans a cleaning pass: the queued disconnects are taken first, then each client is
/// checked in turn; a client's own disconnect reason replaces a queued one.
pub fn plan_clean(queued: &Vec<(u32, DisconnectReason)>, clients: &Vec<ClientStatus>) -> (plan:
    CleanPlan)
    ensures
        plan.disconnect@ == verdict_map(queued_map(queued@), clients@),
        plan.reset_crypt@ == reset_positions(clients@),
        plan.crypt_resets == udp_silent_count(clients@),
        // every queued disconnect is carried out
        forall|i: int|
            0 <= i < queued.len() ==> plan.disconnect@.contains_key(#[trigger] queued@[i].0),
        // exactly the queued sessions and the sessions whose own check fails are disconnected
        forall|id: u32|
            #![trigger plan.disconnect@.contains_key(id)]
            plan.disconnect@.contains_key(id) <==> ((exists|i: int|
                0 <= i < queued.len() && (#[trigger] queued@[i]).0 == id) || (exists|j: int|
                0 <= j < clients.len() && (#[trigger] clients@[j]).session_id == id
                    && clients@[j].disconnects())),
        // a client's own reason replaces a queued one
        forall|j: int|
            0 <= j < clients.len() && (#[trigger] clients@[j]).disconnects() && (forall|k: int|
                j < k < clients.len() ==> (#[trigger] clients@[k]).session_id
                    != clients@[j].session_id) ==> plan.disconnect@[clients@[j].session_id]
                == clients@[j].verdict()->Disconnect_0,
        // a queued reason stands where no later entry and no client check replaces it
        forall|i: int|
            0 <= i < queued.len() && (forall|k: int|
                i < k < queued.len() ==> (#[trigger] queued@[k]).0 != queued@[i].0) && (forall|
                j: int,
            |
                0 <= j < clients.len() && (#[trigger] clients@[j]).session_id == queued@[i].0
                    ==> !clients@[j].disconnects()) ==> plan.disconnect@[(#[trigger] queued@[i]).0]
                == queued@[i].1,
        // each client whose check resets its crypt state is reset once, and no other
        forall|k: int|
            0 <= k < plan.reset_crypt.len() ==> #[trigger] plan.reset_crypt@[k] < clients.len()
                && clients@[plan.reset_crypt@[k] as int].resets_crypt(),
        forall|k1: int, k2: int|
            0 <= k1 < k2 < plan.reset_crypt.len() ==> #[trigger] plan.reset_crypt@[k1]
                < #[trigger] plan.reset_crypt@[k2],
        forall|j: int|
            0 <= j < clients.len() && (#[trigger] clients@[j]).resets_crypt()
                ==> plan.reset_crypt@.contains(j as usize),
        // the crypt-reset metric grows by the number of clients silent on UDP
        plan.crypt_resets == clients@.filter(
            |c: ClientStatus| !c.publisher_closed && c.secs_since_udp_ping > 30,
        ).len(),
{
    let mut disconnect: HashMap<u32, DisconnectReason> = HashMap::new();
    let mut i: usize = 0;
    while i < queued.len()
        invariant
            i <= queued.len(),
            disconnect@ == queued_map(queued@.take(i as int)),
        decreases queued.len() - i,
    {
        let (session_id, reason) = queued[i];
        disconnect.insert(session_id, reason);
        assert(queued@.take(i + 1).drop_last() == queued@.take(i as int));
        i = i + 1;
    }
    assert(queued@.take(queued.len() as int) == queued@);

    let mut reset_crypt: Vec<usize> = Vec::new();
    let mut crypt_resets: u64 = 0;
    let mut j: usize = 0;
    while j < clients.len()
        invariant
            j <= clients.len(),
            disconnect@ == verdict_map(queued_map(queued@), clients@.take(j as int)),
            reset_crypt@ == reset_positions(clients@.take(j as int)),
            crypt_resets == udp_silent_count(clients@.take(j as int)),
            crypt_resets <= j,
        decreases clients.len() - j,
    {
        let status = &clients[j];
        assert(clients@.take(j + 1).drop_last() == clients@.take(j as int));
        assert(clients@.take(j + 1).last() == clients@[j as int]);
        match check_client(status) {
            ClientVerdict::Disconnect(reason) => {
                disconnect.insert(status.session_id, reason);
            },
            ClientVerdict::ResetCrypt { udp_silent } => {
                if udp_silent {
                    crypt_resets = crypt_resets + 1;
                }
                reset_crypt.push(j);
            },
            ClientVerdict::Keep => {},
        }
        j = j + 1;
    }
    assert(clients@.take(clients.len() as int) == clients@);
    proof {
        lemma_udp_silent_count(clients@);
        let qm = queued_map(queued@);
        lemma_queued_map_dom(queued@);
        lemma_verdict_map_dom(qm, clients@);
        lemma_reset_positions(clients@);
        assert forall|i: int| 0 <= i < queued.len() implies disconnect@.contains_key(
            #[trigger] queued@[i].0,
        ) by {
            assert(qm.contains_key(queued@[i].0));
        }
        assert forall|j: int|
            0 <= j < clients.len() && (#[trigger] clients@[j]).disconnects() && (forall|k: int|
                j < k < clients.len() ==> (#[trigger] clients@[k]).session_id
                    != clients@[j].session_id) implies disconnect@[clients@[j].session_id]
            == clients@[j].verdict()->Disconnect_0 by {
            lemma_verdict_map_value(qm, clients@, j);
        }
        assert forall|i: int|
            0 <= i < queued.len() && (forall|k: int|
                i < k < queued.len() ==> (#[trigger] queued@[k]).0 != queued@[i].0) && (forall|
                j: int,
            |
                0 <= j < clients.len() && (#[trigger] clients@[j]).session_id == queued@[i].0
                    ==> !clients@[j].disconnects()) implies disconnect@[(#[trigger] queued@[i]).0]
            == queued@[i].1 by {
            lemma_queued_map_value(queued@, i);
            lemma_verdict_map_keeps(qm, clients@, queued@[i].0);
        }
    }
    CleanPlan { disconnect, reset_crypt, crypt_resets }
}

} // verus!
