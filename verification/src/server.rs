use vstd::prelude::*;

use crate::action::Action;
use crate::codec::{
    decode, encode, pack_valid, spec_encode, Address, Cmd, CmdV, Dest, DestV, Pack, PackV,
};
use crate::constants::PLAYER_MOVE;
use crate::player::Orientation;
use crate::player::spec_walk_target;
use crate::registry::{
    find_addr, has_addr, has_id, lemma_addr_first_match, lemma_addr_no_match, lemma_id_no_match,
    remove_addr, remove_id, room_addrs, update_addr, wf_players, PlayerInfo, PlayerInfoV, Registry,
    RegistryError,
};
use crate::room::Room;

verus! {

/// One transport-level event drained at the start of a tick, in arrival
/// order.
#[derive(Debug)]
pub enum NetEvent {
    Message(Address, Vec<u8>),
    Connect(Address),
    Disconnect(Address),
    RecvError,
}

/// Mathematical model of a `NetEvent`.
#[verifier::ext_equal]
pub ghost enum NetEventV {
    Message(Address, Seq<u8>),
    Connect(Address),
    Disconnect(Address),
    RecvError,
}

impl View for NetEvent {
    type V = NetEventV;

    open spec fn view(&self) -> NetEventV {
        match self {
            NetEvent::Message(a, bytes) => NetEventV::Message(*a, bytes@),
            NetEvent::Connect(a) => NetEventV::Connect(*a),
            NetEvent::Disconnect(a) => NetEventV::Disconnect(*a),
            NetEvent::RecvError => NetEventV::RecvError,
        }
    }
}

/// A non-fatal condition the tick notes and walks past.
#[derive(Clone, Copy, Debug, PartialEq, Eq, Structural)]
pub enum Warning {
    MalformedPacket,
    UnknownDisconnect,
    UnknownSender,
    TransportError,
}

/// A request handed to the authentication collaborator: the claimed name
/// together with the sender address.
#[derive(Debug, Clone, PartialEq)]
pub struct AuthRequest {
    pub name: String,
    pub addr: Address,
}

/// Mathematical model of an `AuthRequest`.
#[verifier::ext_equal]
pub ghost struct AuthRequestV {
    pub name: Seq<char>,
    pub addr: Address,
}

impl View for AuthRequest {
    type V = AuthRequestV;

    open spec fn view(&self) -> AuthRequestV {
        AuthRequestV { name: self.name@, addr: self.addr }
    }
}

/// Work handed on to subsystems outside this core (combat, items),
/// tagged with the acting player's id.
#[derive(Clone, Copy, Debug, PartialEq, Eq, Structural)]
pub enum Forward {
    Act { id: u32, act: Action },
    Item { id: u32, item: u32 },
}

/// One encoded message bound for one concrete address; delivery is
/// fire-and-forget.
#[derive(Debug, Clone, PartialEq)]
pub struct Delivery {
    pub addr: Address,
    pub bytes: Vec<u8>,
}

/// Mathematical model of a `Delivery`.
#[verifier::ext_equal]
pub ghost struct DeliveryV {
    pub addr: Address,
    pub bytes: Seq<u8>,
}

impl View for Delivery {
    type V = DeliveryV;

    open spec fn view(&self) -> DeliveryV {
        DeliveryV { addr: self.addr, bytes: self.bytes@ }
    }
}

/// Everything one tick hands back to its surroundings.
#[derive(Debug)]
pub struct TickOutput {
    pub auth: Vec<AuthRequest>,
    pub forwards: Vec<Forward>,
    pub deliveries: Vec<Delivery>,
    pub warnings: Vec<Warning>,
}

pub open spec fn auth_views(s: Seq<AuthRequest>) -> Seq<AuthRequestV> {
    s.map_values(|a: AuthRequest| a@)
}

pub open spec fn pack_views(s: Seq<Pack>) -> Seq<PackV> {
    s.map_values(|p: Pack| p@)
}

pub open spec fn event_views(s: Seq<NetEvent>) -> Seq<NetEventV> {
    s.map_values(|e: NetEvent| e@)
}

pub open spec fn delivery_views(s: Seq<Delivery>) -> Seq<DeliveryV> {
    s.map_values(|d: Delivery| d@)
}

/// Mathematical model of the server state.
#[verifier::ext_equal]
pub ghost struct StateV {
    pub clients: Seq<Address>,
    pub players: Seq<PlayerInfoV>,
    pub next_id: u32,
}

/// The authoritative per-tick server state: the known-client address set
/// and the player registry, plus the id counter for new players.
pub struct ServerState {
    pub clients: Vec<Address>,
    pub registry: Registry,
    pub next_id: u32,
}

impl View for ServerState {
    type V = StateV;

    open spec fn view(&self) -> StateV {
        StateV { clients: self.clients@, players: self.registry@, next_id: self.next_id }
    }
}

/// The known-client set after one transport connect: idempotent, so a
/// repeated connect never duplicates the entry.
pub open spec fn spec_note_client(clients: Seq<Address>, a: Address) -> Seq<Address> {
    if clients.contains(a) {
        clients
    } else {
        clients.push(a)
    }
}

/// The sequence with every occurrence of an address dropped.
pub open spec fn except(s: Seq<Address>, a: Address) -> Seq<Address>
    decreases s.len(),
{
    if s.len() == 0 {
        Seq::empty()
    } else {
        let rest = except(s.drop_last(), a);
        if s.last() == a {
            rest
        } else {
            rest.push(s.last())
        }
    }
}

/// What `except` keeps: exactly the other addresses, preserving
/// distinctness, and on duplicate-free input it is plain set removal.
pub proof fn lemma_except_facts(s: Seq<Address>, a: Address)
    ensures
        forall|x: Address| except(s, a).contains(x) <==> (s.contains(x) && x != a),
        s.no_duplicates() ==> except(s, a).no_duplicates(),
        s.no_duplicates() ==> except(s, a).to_set() == s.to_set().remove(a),
        s.no_duplicates() && s.contains(a) ==> except(s, a).len() == s.len() - 1,
        s.no_duplicates() && !s.contains(a) ==> except(s, a) == s,
    decreases s.len(),
{
    if s.len() == 0 {
        assert(except(s, a).to_set() =~= s.to_set().remove(a));
    } else {
        let pre = s.drop_last();
        let last = s.last();
        lemma_except_facts(pre, a);
        let rp = except(pre, a);
        let r = except(s, a);
        assert forall|x: Address| r.contains(x) implies (s.contains(x) && x != a) by {
            if last == a {
                assert(r == rp);
                assert(rp.contains(x));
                assert(pre.contains(x) && x != a);
                let j = choose|j: int| 0 <= j < pre.len() && pre[j] == x;
                assert(s[j] == x);
                assert(s.contains(x));
            } else {
                assert(r == rp.push(last));
                let k = choose|k: int| 0 <= k < r.len() && r[k] == x;
                if k < rp.len() {
                    assert(rp[k] == x);
                    assert(rp.contains(x));
                    assert(pre.contains(x) && x != a);
                    let j = choose|j: int| 0 <= j < pre.len() && pre[j] == x;
                    assert(s[j] == x);
                    assert(s.contains(x));
                } else {
                    assert(x == last);
                    assert(s[s.len() - 1] == x);
                    assert(s.contains(x));
                }
            }
        }
        assert forall|x: Address| (s.contains(x) && x != a) implies r.contains(x) by {
            let j = choose|j: int| 0 <= j < s.len() && s[j] == x;
            if j < s.len() - 1 {
                assert(pre[j] == x);
                assert(pre.contains(x));
                assert(rp.contains(x));
                let k = choose|k: int| 0 <= k < rp.len() && rp[k] == x;
                assert(r[k] == x);
                assert(r.contains(x));
            } else {
                assert(last == x);
                assert(r[r.len() - 1] == x);
                assert(r.contains(x));
            }
        }
        if s.no_duplicates() {
            assert(pre.no_duplicates()) by {
                assert forall|i: int, j: int| 0 <= i < j < pre.len() implies pre[i] != pre[j] by {
                    assert(s[i] == pre[i] && s[j] == pre[j]);
                }
            }
            if last == a {
                assert(r.no_duplicates());
            } else {
                assert(!pre.contains(last)) by {
                    if pre.contains(last) {
                        let j = choose|j: int| 0 <= j < pre.len() && pre[j] == last;
                        assert(s[j] == s[s.len() - 1]);
                    }
                }
                assert forall|i: int, j: int| 0 <= i < j < r.len() implies r[i] != r[j] by {
                    if j == r.len() - 1 {
                        assert(r[i] == rp[i]);
                        assert(rp.contains(r[i]));
                        assert(r[j] == last);
                    } else {
                        assert(r[i] == rp[i] && r[j] == rp[j]);
                    }
                }
            }
            assert(r.to_set() =~= s.to_set().remove(a)) by {
                assert forall|x: Address| r.to_set().contains(x) implies s.to_set().remove(
                    a,
                ).contains(x) by {
                    assert(r.contains(x));
                }
                assert forall|x: Address| s.to_set().remove(a).contains(x) implies r.to_set()
                    .contains(x) by {
                    assert(s.contains(x) && x != a);
                    assert(r.contains(x));
                }
            }
            if s.contains(a) {
                if last == a {
                    assert(!pre.contains(a)) by {
                        if pre.contains(a) {
                            let j = choose|j: int| 0 <= j < pre.len() && pre[j] == a;
                            assert(s[j] == s[s.len() - 1]);
                        }
                    }
                    assert(rp == pre);
                    assert(r.len() == s.len() - 1);
                } else {
                    assert(pre.contains(a)) by {
                        let j = choose|j: int| 0 <= j < s.len() && s[j] == a;
                        assert(j < s.len() - 1);
                        assert(pre[j] == a);
                    }
                    assert(rp.len() == pre.len() - 1);
                    assert(r.len() == s.len() - 1);
                }
            } else {
                assert(!pre.contains(a)) by {
                    if pre.contains(a) {
                        let j = choose|j: int| 0 <= j < pre.len() && pre[j] == a;
                        assert(s[j] == a);
                    }
                }
                assert(last != a) by {
                    assert(s[s.len() - 1] == last);
                }
                assert(rp == pre);
                assert(r =~= s);
            }
        }
    }
}

/// The broadcast that announces a removed player.
pub open spec fn removal_pack(id: u32) -> PackV {
    PackV { cmd: CmdV::RemovePlayer(id), dest: DestV::All, addr: Option::None }
}

/// Whether one walk step from `(x, y)` stays inside `i32` arithmetic.
pub open spec fn walk_fits(x: int, y: int, o: Orientation) -> bool {
    let t = spec_walk_target(x, y, o);
    i32::MIN <= t.0 <= i32::MAX && i32::MIN <= t.1 <= i32::MAX
}

/// A player after a move command: the facing always turns to `o`; the
/// position advances one step only where the room allows the move and
/// the step stays representable.
pub open spec fn apply_move_v(p: PlayerInfoV, o: Orientation, room: Room) -> PlayerInfoV {
    let moved = room.spec_allowed_move(p.x as int, p.y as int, o) && walk_fits(
        p.x as int,
        p.y as int,
        o,
    );
    let t = spec_walk_target(p.x as int, p.y as int, o);
    PlayerInfoV {
        id: p.id,
        addr: p.addr,
        name: p.name,
        room: p.room,
        x: if moved {
            t.0 as i32
        } else {
            p.x
        },
        y: if moved {
            t.1 as i32
        } else {
            p.y
        },
        orientation: o,
        pending: Action::Move(o),
    }
}

/// The running result of draining transport events: the state so far,
/// the inbound packs stamped with their senders, the packs this phase
/// queued for sending, and the warnings noted.
#[verifier::ext_equal]
pub ghost struct Ingress {
    pub st: StateV,
    pub inbound: Seq<PackV>,
    pub outq: Seq<PackV>,
    pub warns: Seq<Warning>,
}

pub open spec fn ingress_start(st: StateV) -> Ingress {
    Ingress { st, inbound: Seq::empty(), outq: Seq::empty(), warns: Seq::empty() }
}

/// One transport event applied to the ingress result, exactly as the
/// drain loop does: messages decode (or warn), connects grow the client
/// set idempotently, disconnects shrink it and retire the player behind
/// the address, receive errors only warn.
pub open spec fn step_event(p: Ingress, ev: NetEventV) -> Ingress {
    match ev {
        NetEventV::Message(a, bytes) => match crate::codec::spec_decode(bytes) {
            Option::Some(pk) => Ingress {
                st: p.st,
                inbound: p.inbound.push(PackV { cmd: pk.cmd, dest: pk.dest, addr: Option::Some(a) }),
                outq: p.outq,
                warns: p.warns,
            },
            Option::None => Ingress {
                st: p.st,
                inbound: p.inbound,
                outq: p.outq,
                warns: p.warns.push(Warning::MalformedPacket),
            },
        },
        NetEventV::Connect(a) => Ingress {
            st: StateV {
                clients: spec_note_client(p.st.clients, a),
                players: p.st.players,
                next_id: p.st.next_id,
            },
            inbound: p.inbound,
            outq: p.outq,
            warns: p.warns,
        },
        NetEventV::Disconnect(a) => {
            let clients2 = except(p.st.clients, a);
            match find_addr(p.st.players, a) {
                Option::Some(pl) => Ingress {
                    st: StateV {
                        clients: clients2,
                        players: remove_addr(p.st.players, a),
                        next_id: p.st.next_id,
                    },
                    inbound: p.inbound,
                    outq: p.outq.push(removal_pack(pl.id)),
                    warns: p.warns,
                },
                Option::None => Ingress {
                    st: StateV { clients: clients2, players: p.st.players, next_id: p.st.next_id },
                    inbound: p.inbound,
                    outq: p.outq,
                    warns: p.warns.push(Warning::UnknownDisconnect),
                },
            }
        },
        NetEventV::RecvError => Ingress {
            st: p.st,
            inbound: p.inbound,
            outq: p.outq,
            warns: p.warns.push(Warning::TransportError),
        },
    }
}

/// The ingress result after a whole event sequence, in arrival order.
pub open spec fn fold_events(p: Ingress, evs: Seq<NetEventV>) -> Ingress
    decreases evs.len(),
{
    if evs.len() == 0 {
        p
    } else {
        step_event(fold_events(p, evs.drop_last()), evs.last())
    }
}

/// The running result of processing the inbound packs: the registry so
/// far and everything queued for the collaborators.
#[verifier::ext_equal]
pub ghost struct Egress {
    pub players: Seq<PlayerInfoV>,
    pub auth: Seq<AuthRequestV>,
    pub forwards: Seq<Forward>,
    pub warns: Seq<Warning>,
}

/// One inbound pack applied to the egress result, by command: a connect
/// becomes an authentication request; an action from a registered sender
/// is applied to that player (movement gated by the room) or handed on,
/// and is only warned about from an unknown sender; a player removal is
/// trusted as commanded; a new item is handed on for a registered sender.
pub open spec fn step_pack(q: Egress, room: Room, pk: PackV) -> Egress {
    match pk.cmd {
        CmdV::Connect(name) => match pk.addr {
            Option::Some(a) => Egress {
                players: q.players,
                auth: q.auth.push(AuthRequestV { name, addr: a }),
                forwards: q.forwards,
                warns: q.warns,
            },
            Option::None => q,
        },
        CmdV::Action(act) => match pk.addr {
            Option::Some(a) => match find_addr(q.players, a) {
                Option::Some(pl) => {
                    let pl2 = match act {
                        Action::Move(o) => apply_move_v(pl, o, room),
                        _ => PlayerInfoV {
                            id: pl.id,
                            addr: pl.addr,
                            name: pl.name,
                            room: pl.room,
                            x: pl.x,
                            y: pl.y,
                            orientation: pl.orientation,
                            pending: act,
                        },
                    };
                    let players2 = update_addr(q.players, a, pl2);
                    match act {
                        Action::Attack(_) => Egress {
                            players: players2,
                            auth: q.auth,
                            forwards: q.forwards.push(Forward::Act { id: pl.id, act }),
                            warns: q.warns,
                        },
                        Action::UseItem(_) => Egress {
                            players: players2,
                            auth: q.auth,
                            forwards: q.forwards.push(Forward::Act { id: pl.id, act }),
                            warns: q.warns,
                        },
                        _ => Egress {
                            players: players2,
                            auth: q.auth,
                            forwards: q.forwards,
                            warns: q.warns,
                        },
                    }
                },
                Option::None => Egress {
                    players: q.players,
                    auth: q.auth,
                    forwards: q.forwards,
                    warns: q.warns.push(Warning::UnknownSender),
                },
            },
            Option::None => q,
        },
        CmdV::RemovePlayer(id) => Egress {
            players: remove_id(q.players, id),
            auth: q.auth,
            forwards: q.forwards,
            warns: q.warns,
        },
        CmdV::NewItem(item) => match pk.addr {
            Option::Some(a) => match find_addr(q.players, a) {
                Option::Some(pl) => Egress {
                    players: q.players,
                    auth: q.auth,
                    forwards: q.forwards.push(Forward::Item { id: pl.id, item }),
                    warns: q.warns,
                },
                Option::None => Egress {
                    players: q.players,
                    auth: q.auth,
                    forwards: q.forwards,
                    warns: q.warns.push(Warning::UnknownSender),
                },
            },
            Option::None => q,
        },
    }
}

/// The egress result after all inbound packs, in arrival order.
pub open spec fn fold_packs(q: Egress, room: Room, pks: Seq<PackV>) -> Egress
    decreases pks.len(),
{
    if pks.len() == 0 {
        q
    } else {
        step_pack(fold_packs(q, room, pks.drop_last()), room, pks.last())
    }
}

/// The concrete addresses a destination selector resolves to, against
/// the live client set and registry.
pub open spec fn spec_resolve(dest: DestV, clients: Seq<Address>, players: Seq<PlayerInfoV>) -> Seq<
    Address,
> {
    match dest {
        DestV::Ip(a) => seq![a],
        DestV::All => clients,
        DestV::Room(name) => room_addrs(players, name),
        DestV::AllExcept(a) => except(clients, a),
    }
}

/// One encoding of a pack bound for each of a list of addresses, in order.
pub open spec fn deliveries_for(addrs: Seq<Address>, pk: PackV) -> Seq<DeliveryV>
    decreases addrs.len(),
{
    if addrs.len() == 0 {
        Seq::empty()
    } else {
        deliveries_for(addrs.drop_last(), pk).push(
            DeliveryV { addr: addrs.last(), bytes: spec_encode(pk) },
        )
    }
}

/// A room destination resolves to exactly the addresses of the players
/// currently registered to that room, no more, no fewer.
pub proof fn lemma_room_resolution_exact(
    clients: Seq<Address>,
    players: Seq<PlayerInfoV>,
    name: Seq<char>,
)
    ensures
        forall|a: Address|
            spec_resolve(DestV::Room(name), clients, players).contains(a) <==> exists|i: int|
                0 <= i < players.len() && (#[trigger] players[i]).room == name && players[i].addr
                    == a,
{
    crate::registry::lemma_room_addrs_exact(players, name);
}

/// One delivery per target address.
pub proof fn lemma_deliveries_for_len(addrs: Seq<Address>, pk: PackV)
    ensures
        deliveries_for(addrs, pk).len() == addrs.len(),
    decreases addrs.len(),
{
    if addrs.len() != 0 {
        lemma_deliveries_for_len(addrs.drop_last(), pk);
    }
}

/// One pack routed: its encoding, bound for each resolved address.
pub open spec fn route_pack(clients: Seq<Address>, players: Seq<PlayerInfoV>, pk: PackV) -> Seq<
    DeliveryV,
> {
    deliveries_for(spec_resolve(pk.dest, clients, players), pk)
}

/// All queued packs routed, in queue order.
pub open spec fn route_all(
    clients: Seq<Address>,
    players: Seq<PlayerInfoV>,
    pks: Seq<PackV>,
) -> Seq<DeliveryV>
    decreases pks.len(),
{
    if pks.len() == 0 {
        Seq::empty()
    } else {
        route_all(clients, players, pks.drop_last()) + route_pack(clients, players, pks.last())
    }
}

/// Whether an address is among the known clients.
fn addr_in(v: &Vec<Address>, a: Address) -> (r: bool)
    ensures
        r == v@.contains(a),
{
    let mut k: usize = 0;
    while k < v.len()
        invariant
            k <= v@.len(),
            forall|j: int| 0 <= j < k ==> v@[j] != a,
        decreases v@.len() - k,
    {
        if v[k] == a {
            return true;
        }
        k = k + 1;
    }
    false
}

/// A copy of an address vector.
fn copy_addrs(v: &Vec<Address>) -> (r: Vec<Address>)
    ensures
        r@ == v@,
{
    let mut out: Vec<Address> = Vec::new();
    let mut k: usize = 0;
    while k < v.len()
        invariant
            k <= v@.len(),
            out@ == v@.take(k as int),
        decreases v@.len() - k,
    {
        out.push(v[k]);
        proof {
            assert(out@.drop_last() =~= v@.take(k as int));
            assert(out@ =~= v@.take(k as int + 1));
        }
        k = k + 1;
    }
    proof {
        assert(v@.take(v@.len() as int) =~= v@);
    }
    out
}

/// The address vector without every occurrence of one address.
fn except_exec(v: &Vec<Address>, a: Address) -> (r: Vec<Address>)
    ensures
        r@ == except(v@, a),
{
    let mut out: Vec<Address> = Vec::new();
    let mut k: usize = 0;
    proof {
        assert(v@.take(0) =~= Seq::<Address>::empty());
    }
    while k < v.len()
        invariant
            k <= v@.len(),
            out@ == except(v@.take(k as int), a),
        decreases v@.len() - k,
    {
        proof {
            assert(v@.take(k as int + 1).drop_last() =~= v@.take(k as int));
            assert(v@.take(k as int + 1).last() == v@[k as int]);
        }
        if v[k] != a {
            out.push(v[k]);
        }
        k = k + 1;
    }
    proof {
        assert(v@.take(v@.len() as int) =~= v@);
    }
    out
}

impl ServerState {
    /// Well-formedness: the registry invariants hold, the client set has
    /// no duplicate entries, every registered id is below the counter, and
    /// every registered address is a currently known client — the registry
    /// and the transport-layer client set stay consistent.
    pub open spec fn wf(self) -> bool {
        &&& wf_players(self@.players)
        &&& self@.clients.no_duplicates()
        &&& forall|i: int|
            0 <= i < self@.players.len() ==> (#[trigger] self@.players[i]).id < self@.next_id
        &&& forall|i: int|
            0 <= i < self@.players.len() ==> self@.clients.contains(
                (#[trigger] self@.players[i]).addr,
            )
    }

    pub fn new() -> (r: ServerState)
        ensures
            r@ == (StateV {
                clients: Seq::<Address>::empty(),
                players: Seq::<PlayerInfoV>::empty(),
                next_id: 0u32,
            }),
            r.wf(),
    {
        let r = ServerState { clients: Vec::new(), registry: Registry::new(), next_id: 0 };
        proof {
            assert(r@ =~= (StateV {
                clients: Seq::<Address>::empty(),
                players: Seq::<PlayerInfoV>::empty(),
                next_id: 0u32,
            }));
        }
        r
    }

    /// Notes a transport connect: the address joins the known-client set
    /// unless already present.
    pub fn note_client(&mut self, a: Address)
        requires
            old(self).wf(),
        ensures
            final(self).wf(),
            final(self)@.clients == spec_note_client(old(self)@.clients, a),
            final(self)@.players == old(self)@.players,
            final(self)@.next_id == old(self)@.next_id,
    {
        if !addr_in(&self.clients, a) {
            self.clients.push(a);
            proof {
                let c = self@.clients;
                assert forall|i: int, j: int| 0 <= i < j < c.len() implies c[i] != c[j] by {
                    if j == c.len() - 1 {
                        assert(old(self)@.clients[i] == c[i]);
                        assert(!old(self)@.clients.contains(c[j]));
                    }
                }
                assert forall|i: int| 0 <= i < self@.players.len() implies c.contains(
                    (#[trigger] self@.players[i]).addr,
                ) by {
                    let ad = self@.players[i].addr;
                    assert(old(self)@.clients.contains(ad));
                    let j = choose|j: int|
                        0 <= j < old(self)@.clients.len() && old(self)@.clients[j] == ad;
                    assert(c[j] == ad);
                }
            }
        }
    }

    /// Applies a transport disconnect: the address leaves the known-client
    /// set; where a player was registered to it, that record is removed
    /// and the broadcast announcing the removal is handed back. An unknown
    /// address changes nothing and produces nothing.
    pub fn apply_disconnect(&mut self, a: Address) -> (r: Option<Pack>)
        requires
            old(self).wf(),
        ensures
            final(self).wf(),
            final(self)@.clients == except(old(self)@.clients, a),
            final(self)@.next_id == old(self)@.next_id,
            match find_addr(old(self)@.players, a) {
                Option::Some(pl) => final(self)@.players == remove_addr(old(self)@.players, a) && (
                r matches Option::Some(pk) && pk@ == removal_pack(pl.id)),
                Option::None => final(self)@.players == old(self)@.players && r is None,
            },
    {
        let next = except_exec(&self.clients, a);
        self.clients = next;
        proof {
            lemma_except_facts(old(self)@.clients, a);
        }
        match self.registry.remove_by_address(a) {
            Option::Some(p) => {
                proof {
                    lemma_remove_addr_keeps_ids(old(self)@.players, a, self@.next_id);
                    lemma_remove_addr_elems(old(self)@.players, a);
                    assert forall|k: int| 0 <= k < self@.players.len() implies self@.clients
                        .contains((#[trigger] self@.players[k]).addr) by {
                        let q = self@.players[k];
                        assert(remove_addr(old(self)@.players, a)[k] == q);
                        assert(old(self)@.players.contains(q) && q.addr != a);
                        let j = choose|j: int|
                            0 <= j < old(self)@.players.len() && old(self)@.players[j] == q;
                        assert(old(self)@.clients.contains(q.addr));
                    }
                }
                Option::Some(Pack::new(Cmd::RemovePlayer(p.id), Dest::All))
            },
            Option::None => {
                proof {
                    lemma_addr_no_match(old(self)@.players, a, arbitrary());
                    assert forall|k: int| 0 <= k < self@.players.len() implies self@.clients
                        .contains((#[trigger] self@.players[k]).addr) by {
                        let q = self@.players[k];
                        assert(q.addr != a);
                        assert(old(self)@.clients.contains(q.addr));
                    }
                }
                Option::None
            },
        }
    }
}

/// Removing an entry by address keeps every remaining id below the bound.
proof fn lemma_remove_addr_keeps_ids(s: Seq<PlayerInfoV>, a: Address, n: u32)
    requires
        forall|i: int| 0 <= i < s.len() ==> (#[trigger] s[i]).id < n,
    ensures
        forall|i: int|
            0 <= i < remove_addr(s, a).len() ==> (#[trigger] remove_addr(s, a)[i]).id < n,
    decreases s.len(),
{
    if s.len() == 0 {
    } else if s[0].addr == a {
        let r = remove_addr(s, a);
        assert forall|i: int| 0 <= i < r.len() implies (#[trigger] r[i]).id < n by {
            assert(r[i] == s[i + 1]);
        }
    } else {
        let t = s.drop_first();
        assert forall|i: int| 0 <= i < t.len() implies (#[trigger] t[i]).id < n by {
            assert(t[i] == s[i + 1]);
        }
        lemma_remove_addr_keeps_ids(t, a, n);
        let r = remove_addr(s, a);
        assert forall|i: int| 0 <= i < r.len() implies (#[trigger] r[i]).id < n by {
            if i == 0 {
                assert(r[0] == s[0]);
            } else {
                assert(r[i] == remove_addr(t, a)[i - 1]);
            }
        }
    }
}

impl ServerState {
    /// Processes one inbound pack by its command: exactly one `step_pack`
    /// applied to the registry and the collaborator queues.
    pub fn process_pack(
        &mut self,
        room: &Room,
        pack: &Pack,
        auth: &mut Vec<AuthRequest>,
        forwards: &mut Vec<Forward>,
        warns: &mut Vec<Warning>,
    )
        requires
            old(self).wf(),
            room.wf(),
        ensures
            final(self).wf(),
            final(self)@.clients == old(self)@.clients,
            final(self)@.next_id == old(self)@.next_id,
            ({
                let q1 = step_pack(
                    Egress {
                        players: old(self)@.players,
                        auth: auth_views(old(auth)@),
                        forwards: old(forwards)@,
                        warns: old(warns)@,
                    },
                    *room,
                    pack@,
                );
                &&& final(self)@.players == q1.players
                &&& auth_views(final(auth)@) == q1.auth
                &&& final(forwards)@ == q1.forwards
                &&& final(warns)@ == q1.warns
            }),
    {
        match &pack.cmd {
            Cmd::Connect(name) => {
                match pack.addr {
                    Option::Some(a) => {
                        auth.push(AuthRequest { name: name.clone(), addr: a });
                        proof {
                            assert(auth_views(auth@) =~= auth_views(old(auth)@).push(
                                AuthRequestV { name: name@, addr: a },
                            ));
                        }
                    },
                    Option::None => {},
                }
            },
            Cmd::Action(act) => {
                match pack.addr {
                    Option::Some(a) => {
                        match self.registry.index_of_addr(a) {
                            Option::Some(i) => {
                                let ghost plv = self.registry@[i as int];
                                let pid = self.registry.get(i).id;
                                let mut pl2 = self.registry.get(i).clone();
                                let act2 = *act;
                                pl2.pending = act2;
                                match act2 {
                                    Action::Move(o) => {
                                        pl2.orientation = o;
                                        let allowed = room.allowed_move(pl2.x, pl2.y, &o);
                                        if allowed {
                                            let (tx, ty): (i64, i64) = match o {
                                                Orientation::North => (
                                                    pl2.x as i64,
                                                    pl2.y as i64 + PLAYER_MOVE as i64,
                                                ),
                                                Orientation::South => (
                                                    pl2.x as i64,
                                                    pl2.y as i64 - PLAYER_MOVE as i64,
                                                ),
                                                Orientation::East => (
                                                    pl2.x as i64 + PLAYER_MOVE as i64,
                                                    pl2.y as i64,
                                                ),
                                                Orientation::West => (
                                                    pl2.x as i64 - PLAYER_MOVE as i64,
                                                    pl2.y as i64,
                                                ),
                                            };
                                            if tx >= i32::MIN as i64 && tx <= i32::MAX as i64 && ty
                                                >= i32::MIN as i64 && ty <= i32::MAX as i64 {
                                                pl2.x = tx as i32;
                                                pl2.y = ty as i32;
                                            }
                                        }
                                        proof {
                                            assert(pl2@ =~= apply_move_v(plv, o, *room));
                                        }
                                    },
                                    _ => {},
                                }
                                proof {
                                    lemma_addr_first_match(old(self)@.players, a, i as int, pl2@);
                                }
                                self.registry.set_player(i, pl2);
                                match act2 {
                                    Action::Attack(_) => forwards.push(
                                        Forward::Act { id: pid, act: act2 },
                                    ),
                                    Action::UseItem(_) => forwards.push(
                                        Forward::Act { id: pid, act: act2 },
                                    ),
                                    _ => {},
                                }
                                proof {
                                    let pls = final(self)@.players;
                                    assert forall|k: int| 0 <= k < pls.len() implies (#[trigger]
                                    pls[k]).id < final(self)@.next_id by {
                                        if k != i as int {
                                            assert(pls[k] == old(self)@.players[k]);
                                        }
                                    }
                                    let cs = final(self)@.clients;
                                    assert forall|k: int| 0 <= k < pls.len() implies cs.contains(
                                        (#[trigger] pls[k]).addr,
                                    ) by {
                                        if k != i as int {
                                            assert(pls[k] == old(self)@.players[k]);
                                        } else {
                                            assert(pls[k].addr == old(self)@.players[k].addr);
                                        }
                                    }
                                }
                            },
                            Option::None => {
                                warns.push(Warning::UnknownSender);
                                proof {
                                    lemma_addr_no_match(old(self)@.players, a, arbitrary());
                                }
                            },
                        }
                    },
                    Option::None => {},
                }
            },
            Cmd::RemovePlayer(id) => {
                let removed = self.registry.remove_by_id(*id);
                proof {
                    if removed is None {
                        lemma_id_no_match(old(self)@.players, *id);
                    }
                    lemma_remove_id_keeps_ids(old(self)@.players, *id, old(self)@.next_id);
                    lemma_remove_id_elems(old(self)@.players, *id);
                    assert forall|k: int| 0 <= k < self@.players.len() implies self@.clients
                        .contains((#[trigger] self@.players[k]).addr) by {
                        let q = self@.players[k];
                        assert(remove_id(old(self)@.players, *id)[k] == q);
                        assert(old(self)@.players.contains(q));
                        let j = choose|j: int|
                            0 <= j < old(self)@.players.len() && old(self)@.players[j] == q;
                        assert(self@.clients.contains(q.addr));
                    }
                }
            },
            Cmd::NewItem(item) => {
                match pack.addr {
                    Option::Some(a) => {
                        match self.registry.index_of_addr(a) {
                            Option::Some(i) => {
                                proof {
                                    lemma_addr_first_match(
                                        old(self)@.players,
                                        a,
                                        i as int,
                                        arbitrary(),
                                    );
                                }
                                let pid = self.registry.get(i).id;
                                forwards.push(Forward::Item { id: pid, item: *item });
                            },
                            Option::None => {
                                warns.push(Warning::UnknownSender);
                                proof {
                                    lemma_addr_no_match(old(self)@.players, a, arbitrary());
                                }
                            },
                        }
                    },
                    Option::None => {},
                }
            },
        }
    }

    /// Resolves a destination selector into the concrete address list, at
    /// send time, against the live client set and registry.
    pub fn resolve(&self, dest: &Dest) -> (r: Vec<Address>)
        ensures
            r@ == spec_resolve(dest@, self@.clients, self@.players),
    {
        match dest {
            Dest::Ip(a) => {
                let mut v: Vec<Address> = Vec::new();
                v.push(*a);
                proof {
                    assert(v@ =~= seq![*a]);
                }
                v
            },
            Dest::All => copy_addrs(&self.clients),
            Dest::Room(name) => self.registry.addresses_in_room(name),
            Dest::AllExcept(a) => except_exec(&self.clients, *a),
        }
    }

    /// Routes one queued pack: its encoding is bound for every resolved
    /// address, appended to the delivery list.
    pub fn route_into(&self, pack: &Pack, out: &mut Vec<Delivery>)
        requires
            pack_valid(pack@),
        ensures
            delivery_views(final(out)@) == delivery_views(old(out)@) + route_pack(
                self@.clients,
                self@.players,
                pack@,
            ),
    {
        let targets = self.resolve(&pack.dest);
        let mut t: usize = 0;
        proof {
            assert(targets@.take(0) =~= Seq::<Address>::empty());
            assert(delivery_views(out@) =~= delivery_views(old(out)@) + deliveries_for(
                targets@.take(0),
                pack@,
            ));
        }
        while t < targets.len()
            invariant
                t <= targets@.len(),
                pack_valid(pack@),
                targets@ == spec_resolve(pack@.dest, self@.clients, self@.players),
                delivery_views(out@) == delivery_views(old(out)@) + deliveries_for(
                    targets@.take(t as int),
                    pack@,
                ),
            decreases targets@.len() - t,
        {
            proof {
                assert(targets@.take(t as int + 1).drop_last() =~= targets@.take(t as int));
                assert(targets@.take(t as int + 1).last() == targets@[t as int]);
            }
            let bytes = encode(pack);
            let ghost prior = out@;
            let d = Delivery { addr: targets[t], bytes };
            let ghost dv = d@;
            out.push(d);
            proof {
                lemma_deliveries_for_len(targets@.take(t as int), pack@);
                lemma_deliveries_for_len(targets@.take(t as int + 1), pack@);
                assert(delivery_views(out@) =~= delivery_views(prior).push(dv));
                assert(deliveries_for(targets@.take(t as int + 1), pack@) =~= deliveries_for(
                    targets@.take(t as int),
                    pack@,
                ).push(DeliveryV { addr: targets@[t as int], bytes: spec_encode(pack@) }));
                assert(delivery_views(out@) =~= delivery_views(old(out)@) + deliveries_for(
                    targets@.take(t as int + 1),
                    pack@,
                ));
            }
            t = t + 1;
        }
        proof {
            assert(targets@.take(targets@.len() as int) =~= targets@);
        }
    }

    /// Registers a fresh player for the authentication collaborator: a
    /// new id is allocated from the monotonic counter, so ids never
    /// collide; a second registration for a live address is refused.
    pub fn register_player(
        &mut self,
        name: String,
        room_name: String,
        addr: Address,
        x: i32,
        y: i32,
    ) -> (r: Result<u32, RegistryError>)
        requires
            old(self).wf(),
            old(self)@.next_id < u32::MAX,
            old(self)@.clients.contains(addr),
        ensures
            final(self).wf(),
            final(self)@.clients == old(self)@.clients,
            match r {
                Result::Ok(id) => id == old(self)@.next_id && !has_addr(old(self)@.players, addr)
                    && final(self)@.players == old(self)@.players.push(
                    new_player_v(old(self)@.next_id, addr, name@, room_name@, x, y),
                ) && final(self)@.next_id == old(self)@.next_id + 1,
                Result::Err(e) => e == RegistryError::DuplicateAddress && has_addr(
                    old(self)@.players,
                    addr,
                ) && final(self)@ == old(self)@,
            },
    {
        let id = self.next_id;
        let info = PlayerInfo {
            id,
            addr,
            name,
            room: room_name,
            x,
            y,
            orientation: Orientation::South,
            pending: Action::Nothing,
        };
        proof {
            if has_id(old(self)@.players, id) {
                let k = choose|k: int|
                    0 <= k < old(self)@.players.len() && old(self)@.players[k].id == id;
                assert(old(self)@.players[k].id < old(self)@.next_id);
            }
        }
        match self.registry.add_player(info) {
            Result::Ok(_) => {
                self.next_id = id + 1;
                proof {
                    let pls = self@.players;
                    assert forall|k: int| 0 <= k < pls.len() implies (#[trigger] pls[k]).id
                        < self@.next_id by {
                        if k < pls.len() - 1 {
                            assert(pls[k] == old(self)@.players[k]);
                        }
                    }
                    assert forall|k: int| 0 <= k < pls.len() implies self@.clients.contains(
                        (#[trigger] pls[k]).addr,
                    ) by {
                        if k < pls.len() - 1 {
                            assert(pls[k] == old(self)@.players[k]);
                        } else {
                            assert(pls[k].addr == addr);
                        }
                    }
                }
                Result::Ok(id)
            },
            Result::Err(e) => Result::Err(e),
        }
    }

    /// One simulation tick, strictly ordered: drain the transport events,
    /// process the inbound packs they carried, then resolve and encode
    /// everything queued for sending, against the post-tick state.
    pub fn run_tick(&mut self, room: &Room, events: &Vec<NetEvent>, outgoing: &Vec<Pack>) -> (out:
        TickOutput)
        requires
            old(self).wf(),
            room.wf(),
            forall|i: int| 0 <= i < outgoing@.len() ==> pack_valid((#[trigger] outgoing@[i])@),
        ensures
            final(self).wf(),
            ({
                let p1 = fold_events(ingress_start(old(self)@), event_views(events@));
                let q1 = fold_packs(
                    Egress {
                        players: p1.st.players,
                        auth: Seq::empty(),
                        forwards: Seq::empty(),
                        warns: p1.warns,
                    },
                    *room,
                    p1.inbound,
                );
                &&& final(self)@ == (StateV {
                    clients: p1.st.clients,
                    players: q1.players,
                    next_id: old(self)@.next_id,
                })
                &&& auth_views(out.auth@) == q1.auth
                &&& out.forwards@ == q1.forwards
                &&& out.warnings@ == q1.warns
                &&& delivery_views(out.deliveries@) == route_all(
                    p1.st.clients,
                    q1.players,
                    pack_views(outgoing@) + p1.outq,
                )
            }),
    {
        let ghost evs = event_views(events@);
        let mut inbound: Vec<Pack> = Vec::new();
        let mut outq: Vec<Pack> = Vec::new();
        let mut warnings: Vec<Warning> = Vec::new();

        let mut k: usize = 0;
        proof {
            assert(evs.take(0) =~= Seq::<NetEventV>::empty());
            assert(fold_events(ingress_start(old(self)@), evs.take(0)) =~= Ingress {
                st: old(self)@,
                inbound: pack_views(inbound@),
                outq: pack_views(outq@),
                warns: warnings@,
            });
        }
        while k < events.len()
            invariant
                k <= events@.len(),
                evs == event_views(events@),
                evs.len() == events@.len(),
                self.wf(),
                old(self).wf(),
                fold_events(ingress_start(old(self)@), evs.take(k as int)) == (Ingress {
                    st: self@,
                    inbound: pack_views(inbound@),
                    outq: pack_views(outq@),
                    warns: warnings@,
                }),
                forall|i: int| 0 <= i < outq@.len() ==> pack_valid((#[trigger] outq@[i])@),
            decreases events@.len() - k,
        {
            proof {
                assert(evs.take(k as int + 1).drop_last() =~= evs.take(k as int));
                assert(evs.take(k as int + 1).last() == events@[k as int]@);
            }
            match &events[k] {
                NetEvent::Message(a, bytes) => {
                    match decode(bytes) {
                        Result::Ok(pk) => {
                            let ghost pre_in = inbound@;
                            let ghost stamped_v = PackV {
                                cmd: pk@.cmd,
                                dest: pk@.dest,
                                addr: Option::Some(*a),
                            };
                            let stamped = Pack { cmd: pk.cmd, dest: pk.dest, addr: Option::Some(*a) };
                            inbound.push(stamped);
                            proof {
                                assert(pack_views(inbound@) =~= pack_views(pre_in).push(stamped_v));
                            }
                        },
                        Result::Err(_) => {
                            warnings.push(Warning::MalformedPacket);
                        },
                    }
                },
                NetEvent::Connect(a) => {
                    self.note_client(*a);
                },
                NetEvent::Disconnect(a) => {
                    match self.apply_disconnect(*a) {
                        Option::Some(pk) => {
                            outq.push(pk);
                        },
                        Option::None => {
                            warnings.push(Warning::UnknownDisconnect);
                        },
                    }
                },
                NetEvent::RecvError => {
                    warnings.push(Warning::TransportError);
                },
            }
            proof {
                assert(pack_views(inbound@) =~= pack_views(inbound@));
                assert(fold_events(ingress_start(old(self)@), evs.take(k as int + 1)) =~= (Ingress {
                    st: self@,
                    inbound: pack_views(inbound@),
                    outq: pack_views(outq@),
                    warns: warnings@,
                }));
            }
            k = k + 1;
        }
        proof {
            assert(evs.take(evs.len() as int) =~= evs);
            lemma_fold_events_next_id(ingress_start(old(self)@), evs);
        }
        let ghost p1 = fold_events(ingress_start(old(self)@), evs);

        let mut auth: Vec<AuthRequest> = Vec::new();
        let mut forwards: Vec<Forward> = Vec::new();
        let ghost inb = pack_views(inbound@);
        let ghost egress0 = Egress {
            players: p1.st.players,
            auth: Seq::empty(),
            forwards: Seq::empty(),
            warns: p1.warns,
        };

        let mut k2: usize = 0;
        proof {
            assert(inb.take(0) =~= Seq::<PackV>::empty());
            assert(auth_views(auth@) =~= Seq::<AuthRequestV>::empty());
            assert(fold_packs(egress0, *room, inb.take(0)) =~= Egress {
                players: self@.players,
                auth: auth_views(auth@),
                forwards: forwards@,
                warns: warnings@,
            });
        }
        while k2 < inbound.len()
            invariant
                k2 <= inbound@.len(),
                inb == pack_views(inbound@),
                inb.len() == inbound@.len(),
                self.wf(),
                room.wf(),
                self@.clients == p1.st.clients,
                self@.next_id == old(self)@.next_id,
                fold_packs(egress0, *room, inb.take(k2 as int)) == (Egress {
                    players: self@.players,
                    auth: auth_views(auth@),
                    forwards: forwards@,
                    warns: warnings@,
                }),
            decreases inbound@.len() - k2,
        {
            proof {
                assert(inb.take(k2 as int + 1).drop_last() =~= inb.take(k2 as int));
                assert(inb.take(k2 as int + 1).last() == inbound@[k2 as int]@);
            }
            let pk = &inbound[k2];
            self.process_pack(room, pk, &mut auth, &mut forwards, &mut warnings);
            proof {
                assert(fold_packs(egress0, *room, inb.take(k2 as int + 1)) =~= (Egress {
                    players: self@.players,
                    auth: auth_views(auth@),
                    forwards: forwards@,
                    warns: warnings@,
                }));
            }
            k2 = k2 + 1;
        }
        proof {
            assert(inb.take(inb.len() as int) =~= inb);
        }
        let ghost q1 = fold_packs(egress0, *room, inb);

        let mut deliveries: Vec<Delivery> = Vec::new();
        let ghost og = pack_views(outgoing@);
        let ghost oq = pack_views(outq@);

        let mut k3: usize = 0;
        proof {
            assert(og.take(0) =~= Seq::<PackV>::empty());
            assert(delivery_views(deliveries@) =~= route_all(
                self@.clients,
                self@.players,
                og.take(0),
            ));
        }
        while k3 < outgoing.len()
            invariant
                k3 <= outgoing@.len(),
                og == pack_views(outgoing@),
                og.len() == outgoing@.len(),
                forall|i: int| 0 <= i < outgoing@.len() ==> pack_valid((#[trigger] outgoing@[i])@),
                delivery_views(deliveries@) == route_all(
                    self@.clients,
                    self@.players,
                    og.take(k3 as int),
                ),
            decreases outgoing@.len() - k3,
        {
            proof {
                assert(og.take(k3 as int + 1).drop_last() =~= og.take(k3 as int));
                assert(og.take(k3 as int + 1).last() == outgoing@[k3 as int]@);
            }
            self.route_into(&outgoing[k3], &mut deliveries);
            k3 = k3 + 1;
        }
        proof {
            assert(og.take(og.len() as int) =~= og);
        }

        let mut k4: usize = 0;
        proof {
            assert(oq.take(0) =~= Seq::<PackV>::empty());
            assert(og + oq.take(0) =~= og);
        }
        while k4 < outq.len()
            invariant
                k4 <= outq@.len(),
                oq == pack_views(outq@),
                oq.len() == outq@.len(),
                forall|i: int| 0 <= i < outq@.len() ==> pack_valid((#[trigger] outq@[i])@),
                delivery_views(deliveries@) == route_all(
                    self@.clients,
                    self@.players,
                    og + oq.take(k4 as int),
                ),
            decreases outq@.len() - k4,
        {
            proof {
                assert((og + oq.take(k4 as int + 1)).drop_last() =~= og + oq.take(k4 as int));
                assert((og + oq.take(k4 as int + 1)).last() == outq@[k4 as int]@);
            }
            self.route_into(&outq[k4], &mut deliveries);
            k4 = k4 + 1;
        }
        proof {
            assert(og + oq.take(oq.len() as int) =~= og + oq);
        }

        TickOutput { auth, forwards, deliveries, warnings }
    }
}

/// Draining transport events never touches the id counter.
proof fn lemma_fold_events_next_id(p: Ingress, evs: Seq<NetEventV>)
    ensures
        fold_events(p, evs).st.next_id == p.st.next_id,
    decreases evs.len(),
{
    if evs.len() != 0 {
        lemma_fold_events_next_id(p, evs.drop_last());
    }
}

/// The address a connect event carries, if it is one.
pub open spec fn connect_of(ev: NetEventV) -> Option<Address> {
    match ev {
        NetEventV::Connect(a) => Option::Some(a),
        _ => Option::None,
    }
}

/// The address a disconnect event carries, if it is one.
pub open spec fn disconnect_of(ev: NetEventV) -> Option<Address> {
    match ev {
        NetEventV::Disconnect(a) => Option::Some(a),
        _ => Option::None,
    }
}

/// The distinct addresses a connect event was seen for.
pub open spec fn connect_addrs(evs: Seq<NetEventV>) -> Set<Address>
    decreases evs.len(),
{
    if evs.len() == 0 {
        Set::empty()
    } else {
        let rest = connect_addrs(evs.drop_last());
        match evs.last() {
            NetEventV::Connect(a) => rest.insert(a),
            _ => rest,
        }
    }
}

/// The distinct addresses disconnected while previously connected.
pub open spec fn retired_addrs(evs: Seq<NetEventV>) -> Set<Address>
    decreases evs.len(),
{
    if evs.len() == 0 {
        Set::empty()
    } else {
        let rest = retired_addrs(evs.drop_last());
        match evs.last() {
            NetEventV::Disconnect(a) => {
                if connect_addrs(evs.drop_last()).contains(a) {
                    rest.insert(a)
                } else {
                    rest
                }
            },
            _ => rest,
        }
    }
}

/// No address connects again once it has been disconnected.
pub open spec fn no_reconnect(evs: Seq<NetEventV>) -> bool {
    forall|i: int, j: int|
        0 <= i < j < evs.len() ==> !(#[trigger] disconnect_of(evs[i]) is Some && #[trigger]
        connect_of(evs[j]) == disconnect_of(evs[i]))
}

/// Pushing an address grows the underlying set by exactly it.
proof fn lemma_push_set(s: Seq<Address>, a: Address)
    ensures
        s.push(a).to_set() == s.to_set().insert(a),
        s.no_duplicates() && !s.contains(a) ==> s.push(a).no_duplicates(),
{
    let p = s.push(a);
    assert(p.to_set() =~= s.to_set().insert(a)) by {
        assert forall|x: Address| p.contains(x) implies s.to_set().insert(a).contains(x) by {
            let k = choose|k: int| 0 <= k < p.len() && p[k] == x;
            if k < s.len() {
                assert(s[k] == x);
            }
        }
        assert forall|x: Address| s.to_set().insert(a).contains(x) implies p.contains(x) by {
            if x == a {
                assert(p[p.len() - 1] == x);
            } else {
                let k = choose|k: int| 0 <= k < s.len() && s[k] == x;
                assert(p[k] == x);
            }
        }
    }
    if s.no_duplicates() && !s.contains(a) {
        assert forall|i: int, j: int| 0 <= i < j < p.len() implies p[i] != p[j] by {
            if j == p.len() - 1 {
                assert(p[i] == s[i]);
                assert(s.contains(s[i]));
            }
        }
    }
}

/// A retired address was carried by some disconnect event.
proof fn lemma_retired_has_disconnect(evs: Seq<NetEventV>, a: Address)
    requires
        retired_addrs(evs).contains(a),
    ensures
        exists|i: int| 0 <= i < evs.len() && #[trigger] disconnect_of(evs[i]) == Option::Some(a),
    decreases evs.len(),
{
    if evs.len() == 0 {
    } else {
        let pre = evs.drop_last();
        if evs.last() == NetEventV::Disconnect(a) && connect_addrs(pre).contains(a) {
            assert(disconnect_of(evs[evs.len() - 1]) == Option::Some(a));
        } else {
            assert(retired_addrs(pre).contains(a));
            lemma_retired_has_disconnect(pre, a);
            let i = choose|i: int|
                0 <= i < pre.len() && #[trigger] disconnect_of(pre[i]) == Option::Some(a);
            assert(disconnect_of(evs[i]) == Option::Some(a));
        }
    }
}

/// The event-derived address sets stay finite.
proof fn lemma_event_sets_finite(evs: Seq<NetEventV>)
    ensures
        connect_addrs(evs).finite(),
        retired_addrs(evs).finite(),
    decreases evs.len(),
{
    if evs.len() != 0 {
        lemma_event_sets_finite(evs.drop_last());
    }
}

/// Conservation of the known-client set: over any interleaving of
/// transport events in which no address connects again once disconnected,
/// starting with no known clients, the set ends as the distinct connected
/// addresses less the distinct addresses disconnected while connected —
/// so its size is the difference of those two counts.
pub proof fn lemma_client_set_conservation(st: StateV, evs: Seq<NetEventV>)
    requires
        st.clients == Seq::<Address>::empty(),
        no_reconnect(evs),
    ensures
        ({
            let c = fold_events(ingress_start(st), evs).st.clients;
            let con = connect_addrs(evs);
            let ret = retired_addrs(evs);
            &&& c.no_duplicates()
            &&& c.to_set() == con.difference(ret)
            &&& ret.subset_of(con)
            &&& con.finite() && ret.finite()
            &&& c.len() == con.len() - ret.len()
        }),
    decreases evs.len(),
{
    lemma_event_sets_finite(evs);
    if evs.len() == 0 {
        let c = fold_events(ingress_start(st), evs).st.clients;
        assert(c.to_set() =~= connect_addrs(evs).difference(retired_addrs(evs)));
    } else {
        let pre = evs.drop_last();
        let last = evs.last();
        assert(no_reconnect(pre)) by {
            assert forall|i: int, j: int| 0 <= i < j < pre.len() implies !(#[trigger] disconnect_of(
                pre[i],
            ) is Some && #[trigger] connect_of(pre[j]) == disconnect_of(pre[i])) by {
                assert(pre[i] == evs[i] && pre[j] == evs[j]);
            }
        }
        lemma_client_set_conservation(st, pre);
        lemma_event_sets_finite(pre);
        let cp = fold_events(ingress_start(st), pre).st.clients;
        let con = connect_addrs(pre);
        let ret = retired_addrs(pre);
        let c = fold_events(ingress_start(st), evs).st.clients;
        match last {
            NetEventV::Connect(a) => {
                assert(c == spec_note_client(cp, a));
                assert(connect_addrs(evs) == con.insert(a));
                assert(retired_addrs(evs) == ret);
                if cp.contains(a) {
                    assert(cp.to_set().contains(a));
                    assert(con.contains(a));
                    assert(con.insert(a) =~= con);
                    assert(c.to_set() =~= con.insert(a).difference(ret));
                } else {
                    assert(!ret.contains(a)) by {
                        if ret.contains(a) {
                            lemma_retired_has_disconnect(pre, a);
                            let i = choose|i: int|
                                0 <= i < pre.len() && #[trigger] disconnect_of(pre[i])
                                    == Option::Some(a);
                            assert(disconnect_of(evs[i]) is Some);
                            assert(connect_of(evs[evs.len() - 1]) == Option::Some(a));
                        }
                    }
                    assert(!con.contains(a)) by {
                        if con.contains(a) {
                            assert(con.difference(ret).contains(a));
                            assert(cp.to_set().contains(a));
                            assert(cp.contains(a));
                        }
                    }
                    lemma_push_set(cp, a);
                    assert(c == cp.push(a));
                    assert(c.to_set() =~= con.insert(a).difference(ret));
                    assert(c.len() == cp.len() + 1);
                    assert(con.insert(a).len() == con.len() + 1);
                }
            },
            NetEventV::Disconnect(a) => {
                assert(c == except(cp, a)) by {
                    let folded = fold_events(ingress_start(st), pre);
                    assert(step_event(folded, last).st.clients == except(folded.st.clients, a));
                }
                assert(connect_addrs(evs) == con);
                lemma_except_facts(cp, a);
                if cp.contains(a) {
                    assert(cp.to_set().contains(a));
                    assert(con.contains(a));
                    assert(retired_addrs(evs) == ret.insert(a));
                    assert(!ret.contains(a)) by {
                        if ret.contains(a) {
                            assert(!con.difference(ret).contains(a));
                            assert(!cp.to_set().contains(a));
                        }
                    }
                    assert(c.to_set() =~= con.difference(ret.insert(a)));
                    assert(ret.insert(a).len() == ret.len() + 1);
                    assert(c.len() == cp.len() - 1);
                } else {
                    assert(c == cp);
                    if con.contains(a) {
                        assert(retired_addrs(evs) == ret.insert(a));
                        assert(ret.contains(a)) by {
                            if !ret.contains(a) {
                                assert(con.difference(ret).contains(a));
                                assert(cp.to_set().contains(a));
                                assert(cp.contains(a));
                            }
                        }
                        assert(ret.insert(a) =~= ret);
                        assert(c.to_set() =~= con.difference(ret.insert(a)));
                    } else {
                        assert(retired_addrs(evs) == ret);
                    }
                }
            },
            NetEventV::Message(_, _) => {
                assert(connect_addrs(evs) == con);
                assert(retired_addrs(evs) == ret);
                assert(c == cp) by {
                    let folded = fold_events(ingress_start(st), pre);
                    assert(step_event(folded, last).st.clients == folded.st.clients);
                }
            },
            NetEventV::RecvError => {
                assert(connect_addrs(evs) == con);
                assert(retired_addrs(evs) == ret);
                assert(c == cp);
            },
        }
    }
}

/// The starting record of a freshly registered player: it spawns at the
/// given position, facing south, with nothing pending.
pub open spec fn new_player_v(
    id: u32,
    addr: Address,
    name: Seq<char>,
    room: Seq<char>,
    x: i32,
    y: i32,
) -> PlayerInfoV {
    PlayerInfoV {
        id,
        addr,
        name,
        room,
        x,
        y,
        orientation: Orientation::South,
        pending: Action::Nothing,
    }
}

/// Under unique addresses, removal by address leaves exactly original
/// entries, none of which carries the removed address.
proof fn lemma_remove_addr_elems(s: Seq<PlayerInfoV>, a: Address)
    requires
        wf_players(s),
    ensures
        forall|k: int|
            0 <= k < remove_addr(s, a).len() ==> s.contains(#[trigger] remove_addr(s, a)[k])
                && remove_addr(s, a)[k].addr != a,
    decreases s.len(),
{
    if s.len() == 0 {
    } else if s[0].addr == a {
        let r = remove_addr(s, a);
        assert forall|k: int| 0 <= k < r.len() implies s.contains(#[trigger] r[k]) && r[k].addr
            != a by {
            assert(r[k] == s[k + 1]);
            assert(s[0].addr != s[k + 1].addr);
        }
    } else {
        let t = s.drop_first();
        assert(wf_players(t)) by {
            assert forall|i: int, j: int| 0 <= i < j < t.len() implies (#[trigger] t[i]).id
                != (#[trigger] t[j]).id && t[i].addr != t[j].addr by {
                assert(t[i] == s[i + 1] && t[j] == s[j + 1]);
            }
        }
        lemma_remove_addr_elems(t, a);
        let r = remove_addr(s, a);
        assert forall|k: int| 0 <= k < r.len() implies s.contains(#[trigger] r[k]) && r[k].addr
            != a by {
            if k == 0 {
                assert(r[0] == s[0]);
                assert(s.contains(s[0]));
            } else {
                assert(r[k] == remove_addr(t, a)[k - 1]);
                assert(t.contains(r[k]));
                let j = choose|j: int| 0 <= j < t.len() && t[j] == r[k];
                assert(s[j + 1] == r[k]);
            }
        }
    }
}

/// Removal by id leaves only original entries.
proof fn lemma_remove_id_elems(s: Seq<PlayerInfoV>, id: u32)
    ensures
        forall|k: int|
            0 <= k < remove_id(s, id).len() ==> s.contains(#[trigger] remove_id(s, id)[k]),
    decreases s.len(),
{
    if s.len() == 0 {
    } else if s[0].id == id {
        let r = remove_id(s, id);
        assert forall|k: int| 0 <= k < r.len() implies s.contains(#[trigger] r[k]) by {
            assert(r[k] == s[k + 1]);
        }
    } else {
        let t = s.drop_first();
        lemma_remove_id_elems(t, id);
        let r = remove_id(s, id);
        assert forall|k: int| 0 <= k < r.len() implies s.contains(#[trigger] r[k]) by {
            if k == 0 {
                assert(r[0] == s[0]);
                assert(s.contains(s[0]));
            } else {
                assert(r[k] == remove_id(t, id)[k - 1]);
                assert(t.contains(r[k]));
                let j = choose|j: int| 0 <= j < t.len() && t[j] == r[k];
                assert(s[j + 1] == r[k]);
            }
        }
    }
}

/// Removing an entry by id keeps every remaining id below the bound.
proof fn lemma_remove_id_keeps_ids(s: Seq<PlayerInfoV>, id: u32, n: u32)
    requires
        forall|i: int| 0 <= i < s.len() ==> (#[trigger] s[i]).id < n,
    ensures
        forall|i: int| 0 <= i < remove_id(s, id).len() ==> (#[trigger] remove_id(s, id)[i]).id < n,
    decreases s.len(),
{
    if s.len() == 0 {
    } else if s[0].id == id {
        let r = remove_id(s, id);
        assert forall|i: int| 0 <= i < r.len() implies (#[trigger] r[i]).id < n by {
            assert(r[i] == s[i + 1]);
        }
    } else {
        let t = s.drop_first();
        assert forall|i: int| 0 <= i < t.len() implies (#[trigger] t[i]).id < n by {
            assert(t[i] == s[i + 1]);
        }
        lemma_remove_id_keeps_ids(t, id, n);
        let r = remove_id(s, id);
        assert forall|i: int| 0 <= i < r.len() implies (#[trigger] r[i]).id < n by {
            if i == 0 {
                assert(r[0] == s[0]);
            } else {
                assert(r[i] == remove_id(t, id)[i - 1]);
            }
        }
    }
}

} // verus!
