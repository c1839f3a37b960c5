use vstd::prelude::*;

use crate::action::Action;
use crate::codec::Address;
use crate::player::Orientation;

verus! {

/// The authoritative server-side record of one connected player.
#[derive(Debug, PartialEq)]
pub struct PlayerInfo {
    pub id: u32,
    pub addr: Address,
    pub name: String,
    pub room: String,
    pub x: i32,
    pub y: i32,
    pub orientation: Orientation,
    pub pending: Action,
}

/// Mathematical model of a `PlayerInfo`.
#[verifier::ext_equal]
pub ghost struct PlayerInfoV {
    pub id: u32,
    pub addr: Address,
    pub name: Seq<char>,
    pub room: Seq<char>,
    pub x: i32,
    pub y: i32,
    pub orientation: Orientation,
    pub pending: Action,
}

impl View for PlayerInfo {
    type V = PlayerInfoV;

    open spec fn view(&self) -> PlayerInfoV {
        PlayerInfoV {
            id: self.id,
            addr: self.addr,
            name: self.name@,
            room: self.room@,
            x: self.x,
            y: self.y,
            orientation: self.orientation,
            pending: self.pending,
        }
    }
}

impl Clone for PlayerInfo {
    fn clone(&self) -> (res: Self)
        ensures
            res == *self,
    {
        PlayerInfo {
            id: self.id,
            addr: self.addr,
            name: self.name.clone(),
            room: self.room.clone(),
            x: self.x,
            y: self.y,
            orientation: self.orientation,
            pending: self.pending,
        }
    }
}

/// Why an insertion into the registry was refused.
#[derive(Clone, Copy, Debug, PartialEq, Eq, Structural)]
pub enum RegistryError {
    DuplicateId,
    DuplicateAddress,
}

/// Whether some entry of `s` carries the id.
pub open spec fn has_id(s: Seq<PlayerInfoV>, id: u32) -> bool {
    exists|i: int| 0 <= i < s.len() && s[i].id == id
}

/// Whether some entry of `s` carries the address.
pub open spec fn has_addr(s: Seq<PlayerInfoV>, addr: Address) -> bool {
    exists|i: int| 0 <= i < s.len() && s[i].addr == addr
}

/// Ids and addresses are pairwise distinct: ids are unique and stable,
/// and one address maps to at most one player.
pub open spec fn wf_players(s: Seq<PlayerInfoV>) -> bool {
    forall|i: int, j: int|
        0 <= i < j < s.len() ==> (#[trigger] s[i]).id != (#[trigger] s[j]).id && s[i].addr
            != s[j].addr
}

/// The entry registered to an address, if any.
pub open spec fn find_addr(s: Seq<PlayerInfoV>, addr: Address) -> Option<PlayerInfoV>
    decreases s.len(),
{
    if s.len() == 0 {
        Option::None
    } else if s[0].addr == addr {
        Option::Some(s[0])
    } else {
        find_addr(s.drop_first(), addr)
    }
}

/// The sequence with the first entry of the given address removed.
pub open spec fn remove_addr(s: Seq<PlayerInfoV>, addr: Address) -> Seq<PlayerInfoV>
    decreases s.len(),
{
    if s.len() == 0 {
        s
    } else if s[0].addr == addr {
        s.drop_first()
    } else {
        seq![s[0]] + remove_addr(s.drop_first(), addr)
    }
}

/// The entry carrying an id, if any.
pub open spec fn find_id(s: Seq<PlayerInfoV>, id: u32) -> Option<PlayerInfoV>
    decreases s.len(),
{
    if s.len() == 0 {
        Option::None
    } else if s[0].id == id {
        Option::Some(s[0])
    } else {
        find_id(s.drop_first(), id)
    }
}

/// The sequence with the first entry of the given id removed.
pub open spec fn remove_id(s: Seq<PlayerInfoV>, id: u32) -> Seq<PlayerInfoV>
    decreases s.len(),
{
    if s.len() == 0 {
        s
    } else if s[0].id == id {
        s.drop_first()
    } else {
        seq![s[0]] + remove_id(s.drop_first(), id)
    }
}

/// The sequence with the first entry of the given address replaced by `p`.
pub open spec fn update_addr(s: Seq<PlayerInfoV>, addr: Address, p: PlayerInfoV) -> Seq<PlayerInfoV>
    decreases s.len(),
{
    if s.len() == 0 {
        s
    } else if s[0].addr == addr {
        seq![p] + s.drop_first()
    } else {
        seq![s[0]] + update_addr(s.drop_first(), addr, p)
    }
}

/// At the first index holding an address, the first-match spec functions
/// coincide with plain indexing, removal, and update at that index.
pub proof fn lemma_addr_first_match(s: Seq<PlayerInfoV>, addr: Address, i: int, p: PlayerInfoV)
    requires
        0 <= i < s.len(),
        s[i].addr == addr,
        forall|j: int| 0 <= j < i ==> s[j].addr != addr,
    ensures
        find_addr(s, addr) == Option::Some(s[i]),
        remove_addr(s, addr) == s.remove(i),
        update_addr(s, addr, p) == s.update(i, p),
    decreases i,
{
    if i == 0 {
        assert(remove_addr(s, addr) =~= s.remove(0));
        assert(update_addr(s, addr, p) =~= s.update(0, p));
    } else {
        let t = s.drop_first();
        lemma_addr_first_match(t, addr, i - 1, p);
        assert(remove_addr(s, addr) =~= s.remove(i));
        assert(update_addr(s, addr, p) =~= s.update(i, p));
    }
}

/// Where no entry holds the address, the first-match spec functions are
/// the identity and find nothing.
pub proof fn lemma_addr_no_match(s: Seq<PlayerInfoV>, addr: Address, p: PlayerInfoV)
    requires
        !has_addr(s, addr),
    ensures
        find_addr(s, addr) is None,
        remove_addr(s, addr) == s,
        update_addr(s, addr, p) == s,
    decreases s.len(),
{
    if s.len() == 0 {
        assert(remove_addr(s, addr) =~= s);
        assert(update_addr(s, addr, p) =~= s);
    } else {
        assert(s[0].addr != addr);
        let t = s.drop_first();
        assert(!has_addr(t, addr)) by {
            if has_addr(t, addr) {
                let j = choose|j: int| 0 <= j < t.len() && t[j].addr == addr;
                assert(s[j + 1].addr == addr);
            }
        }
        lemma_addr_no_match(t, addr, p);
        assert(remove_addr(s, addr) =~= s);
        assert(update_addr(s, addr, p) =~= s);
    }
}

/// The id analogue of `lemma_addr_first_match`.
pub proof fn lemma_id_first_match(s: Seq<PlayerInfoV>, id: u32, i: int)
    requires
        0 <= i < s.len(),
        s[i].id == id,
        forall|j: int| 0 <= j < i ==> s[j].id != id,
    ensures
        find_id(s, id) == Option::Some(s[i]),
        remove_id(s, id) == s.remove(i),
    decreases i,
{
    if i == 0 {
        assert(remove_id(s, id) =~= s.remove(0));
    } else {
        lemma_id_first_match(s.drop_first(), id, i - 1);
        assert(remove_id(s, id) =~= s.remove(i));
    }
}

/// The id analogue of `lemma_addr_no_match`.
pub proof fn lemma_id_no_match(s: Seq<PlayerInfoV>, id: u32)
    requires
        !has_id(s, id),
    ensures
        find_id(s, id) is None,
        remove_id(s, id) == s,
    decreases s.len(),
{
    if s.len() == 0 {
        assert(remove_id(s, id) =~= s);
    } else {
        assert(s[0].id != id);
        let t = s.drop_first();
        assert(!has_id(t, id)) by {
            if has_id(t, id) {
                let j = choose|j: int| 0 <= j < t.len() && t[j].id == id;
                assert(s[j + 1].id == id);
            }
        }
        lemma_id_no_match(t, id);
        assert(remove_id(s, id) =~= s);
    }
}

/// The addresses of the players registered to a room, in registry order.
pub open spec fn room_addrs(s: Seq<PlayerInfoV>, room: Seq<char>) -> Seq<Address>
    decreases s.len(),
{
    if s.len() == 0 {
        Seq::empty()
    } else {
        let rest = room_addrs(s.drop_last(), room);
        if s.last().room == room {
            rest.push(s.last().addr)
        } else {
            rest
        }
    }
}

/// Room resolution is exact: an address is produced for a room precisely
/// when some registry entry holds that address and that room.
pub proof fn lemma_room_addrs_exact(s: Seq<PlayerInfoV>, room: Seq<char>)
    ensures
        forall|a: Address|
            room_addrs(s, room).contains(a) <==> exists|i: int|
                0 <= i < s.len() && (#[trigger] s[i]).room == room && s[i].addr == a,
    decreases s.len(),
{
    if s.len() == 0 {
    } else {
        let pre = s.drop_last();
        lemma_room_addrs_exact(pre, room);
        let r = room_addrs(s, room);
        assert forall|a: Address| r.contains(a) implies exists|i: int|
            0 <= i < s.len() && (#[trigger] s[i]).room == room && s[i].addr == a by {
            if s.last().room == room && a == s.last().addr {
                assert(s[s.len() - 1].room == room && s[s.len() - 1].addr == a);
            } else {
                assert(room_addrs(pre, room).contains(a));
                let i = choose|i: int| 0 <= i < pre.len() && (#[trigger] pre[i]).room == room
                    && pre[i].addr == a;
                assert(s[i].room == room && s[i].addr == a);
            }
        }
        assert forall|a: Address|
            (exists|i: int| 0 <= i < s.len() && (#[trigger] s[i]).room == room && s[i].addr == a)
            implies r.contains(a) by {
            let i = choose|i: int| 0 <= i < s.len() && (#[trigger] s[i]).room == room && s[i].addr
                == a;
            if i == s.len() - 1 {
                assert(r.last() == a);
            } else {
                assert(pre[i].room == room && pre[i].addr == a);
                assert(room_addrs(pre, room).contains(a));
                let k = choose|k: int| 0 <= k < room_addrs(pre, room).len() && room_addrs(
                    pre,
                    room,
                )[k] == a;
                assert(r[k] == a);
            }
        }
    }
}

/// The single source of truth for who is connected: identity, address,
/// room, and position of every player.
pub struct Registry {
    players: Vec<PlayerInfo>,
}

impl View for Registry {
    type V = Seq<PlayerInfoV>;

    closed spec fn view(&self) -> Seq<PlayerInfoV> {
        self.players@.map_values(|p: PlayerInfo| p@)
    }
}

impl Registry {
    pub open spec fn wf(self) -> bool {
        wf_players(self@)
    }

    pub fn new() -> (r: Registry)
        ensures
            r@ == Seq::<PlayerInfoV>::empty(),
            r.wf(),
    {
        let r = Registry { players: Vec::new() };
        proof {
            assert(r@ =~= Seq::<PlayerInfoV>::empty());
        }
        r
    }

    pub fn len(&self) -> (r: usize)
        ensures
            r == self@.len(),
    {
        self.players.len()
    }

    /// A borrow of the entry at an index.
    pub fn get(&self, i: usize) -> (r: &PlayerInfo)
        requires
            i < self@.len(),
        ensures
            r@ == self@[i as int],
    {
        &self.players[i]
    }

    /// The first index holding an address, if any.
    pub fn index_of_addr(&self, addr: Address) -> (r: Option<usize>)
        ensures
            match r {
                Option::Some(i) => i < self@.len() && self@[i as int].addr == addr && forall|j: int|
                    0 <= j < i ==> self@[j].addr != addr,
                Option::None => !has_addr(self@, addr),
            },
    {
        let mut k: usize = 0;
        while k < self.players.len()
            invariant
                k <= self@.len(),
                self@.len() == self.players@.len(),
                forall|j: int| 0 <= j < k ==> self@[j].addr != addr,
            decreases self@.len() - k,
        {
            if self.players[k].addr == addr {
                return Option::Some(k);
            }
            k = k + 1;
        }
        Option::None
    }

    /// The first index holding an id, if any.
    pub fn index_of_id(&self, id: u32) -> (r: Option<usize>)
        ensures
            match r {
                Option::Some(i) => i < self@.len() && self@[i as int].id == id && forall|j: int|
                    0 <= j < i ==> self@[j].id != id,
                Option::None => !has_id(self@, id),
            },
    {
        let mut k: usize = 0;
        while k < self.players.len()
            invariant
                k <= self@.len(),
                self@.len() == self.players@.len(),
                forall|j: int| 0 <= j < k ==> self@[j].id != id,
            decreases self@.len() - k,
        {
            if self.players[k].id == id {
                return Option::Some(k);
            }
            k = k + 1;
        }
        Option::None
    }

    /// Inserts a record; refused with `DuplicateId` when the id is taken,
    /// and with `DuplicateAddress` when the address already maps to a
    /// player, so the uniqueness invariants never break.
    pub fn add_player(&mut self, info: PlayerInfo) -> (r: Result<(), RegistryError>)
        requires
            old(self).wf(),
        ensures
            final(self).wf(),
            match r {
                Result::Ok(_) => !has_id(old(self)@, info@.id) && !has_addr(old(self)@, info@.addr)
                    && final(self)@ == old(self)@.push(info@),
                Result::Err(e) => final(self)@ == old(self)@ && (e == RegistryError::DuplicateId
                    <==> has_id(old(self)@, info@.id)) && (e == RegistryError::DuplicateAddress
                    <==> !has_id(old(self)@, info@.id) && has_addr(old(self)@, info@.addr)),
            },
    {
        if let Option::Some(_) = self.index_of_id(info.id) {
            return Result::Err(RegistryError::DuplicateId);
        }
        if let Option::Some(_) = self.index_of_addr(info.addr) {
            return Result::Err(RegistryError::DuplicateAddress);
        }
        let ghost pre = self@;
        self.players.push(info);
        proof {
            assert(self@ =~= pre.push(info@));
            assert forall|i: int, j: int| 0 <= i < j < self@.len() implies (#[trigger] self@[i]).id
                != (#[trigger] self@[j]).id && self@[i].addr != self@[j].addr by {
                if j < pre.len() {
                    assert(pre[i].id != pre[j].id && pre[i].addr != pre[j].addr);
                } else {
                    assert(!has_id(pre, info@.id) && !has_addr(pre, info@.addr));
                    assert(self@[i] == pre[i]);
                }
            }
        }
        Result::Ok(())
    }

    /// Removes and returns the entry registered to an address; the
    /// disconnect of an unknown address is a no-op, not an error.
    pub fn remove_by_address(&mut self, addr: Address) -> (r: Option<PlayerInfo>)
        requires
            old(self).wf(),
        ensures
            final(self).wf(),
            match r {
                Option::Some(p) => p@.addr == addr && Option::Some(p@) == find_addr(
                    old(self)@,
                    addr,
                ) && final(self)@ == remove_addr(old(self)@, addr),
                Option::None => !has_addr(old(self)@, addr) && final(self)@ == old(self)@,
            },
    {
        match self.index_of_addr(addr) {
            Option::None => Option::None,
            Option::Some(i) => {
                let ghost pre = self@;
                let p = self.players.remove(i);
                proof {
                    assert(self@ =~= pre.remove(i as int));
                    lemma_remove_keeps_wf(pre, i as int);
                    lemma_addr_first_match(pre, addr, i as int, p@);
                }
                Option::Some(p)
            },
        }
    }

    /// Removes and returns the entry carrying an id, if any.
    pub fn remove_by_id(&mut self, id: u32) -> (r: Option<PlayerInfo>)
        requires
            old(self).wf(),
        ensures
            final(self).wf(),
            match r {
                Option::Some(p) => p@.id == id && Option::Some(p@) == find_id(old(self)@, id)
                    && final(self)@ == remove_id(old(self)@, id),
                Option::None => !has_id(old(self)@, id) && final(self)@ == old(self)@,
            },
    {
        match self.index_of_id(id) {
            Option::None => Option::None,
            Option::Some(i) => {
                let ghost pre = self@;
                let p = self.players.remove(i);
                proof {
                    assert(self@ =~= pre.remove(i as int));
                    lemma_remove_keeps_wf(pre, i as int);
                    lemma_id_first_match(pre, id, i as int);
                }
                Option::Some(p)
            },
        }
    }

    /// A borrow of the entry registered to an address, if any.
    pub fn find_by_address(&self, addr: Address) -> (r: Option<&PlayerInfo>)
        ensures
            match r {
                Option::Some(p) => p@.addr == addr && Option::Some(p@) == find_addr(self@, addr),
                Option::None => !has_addr(self@, addr),
            },
    {
        match self.index_of_addr(addr) {
            Option::None => Option::None,
            Option::Some(i) => {
                proof {
                    lemma_addr_first_match(self@, addr, i as int, self@[i as int]);
                }
                Option::Some(&self.players[i])
            },
        }
    }

    /// Replaces the entry at an index with a record that keeps its id and
    /// address, as a movement update does.
    pub fn set_player(&mut self, i: usize, p: PlayerInfo)
        requires
            old(self).wf(),
            i < old(self)@.len(),
            p@.id == old(self)@[i as int].id,
            p@.addr == old(self)@[i as int].addr,
        ensures
            final(self).wf(),
            final(self)@ == old(self)@.update(i as int, p@),
    {
        let ghost pre = self@;
        let slot = &mut self.players[i];
        *slot = p;
        proof {
            assert(self@ =~= pre.update(i as int, p@));
            assert forall|a: int, b: int| 0 <= a < b < self@.len() implies (#[trigger] self@[a]).id
                != (#[trigger] self@[b]).id && self@[a].addr != self@[b].addr by {
                assert(pre[a].id != pre[b].id && pre[a].addr != pre[b].addr);
            }
        }
    }

    /// Every address currently registered to a player of the given room;
    /// the order is insignificant.
    pub fn addresses_in_room(&self, name: &String) -> (r: Vec<Address>)
        ensures
            r@ == room_addrs(self@, name@),
    {
        let mut out: Vec<Address> = Vec::new();
        let mut k: usize = 0;
        proof {
            assert(self@.take(0) =~= Seq::<PlayerInfoV>::empty());
        }
        while k < self.players.len()
            invariant
                k <= self@.len(),
                self@.len() == self.players@.len(),
                out@ == room_addrs(self@.take(k as int), name@),
            decreases self@.len() - k,
        {
            proof {
                assert(self@.take(k as int + 1).drop_last() =~= self@.take(k as int));
                assert(self@.take(k as int + 1).last() == self@[k as int]);
            }
            if self.players[k].room == *name {
                out.push(self.players[k].addr);
            }
            k = k + 1;
        }
        proof {
            assert(self@.take(self@.len() as int) =~= self@);
        }
        out
    }
}

/// Removing an entry keeps ids and addresses pairwise distinct.
proof fn lemma_remove_keeps_wf(s: Seq<PlayerInfoV>, i: int)
    requires
        wf_players(s),
        0 <= i < s.len(),
    ensures
        wf_players(s.remove(i)),
{
    let t = s.remove(i);
    assert forall|a: int, b: int| 0 <= a < b < t.len() implies (#[trigger] t[a]).id
        != (#[trigger] t[b]).id && t[a].addr != t[b].addr by {
        let a0 = if a < i { a } else { a + 1 };
        let b0 = if b < i { b } else { b + 1 };
        assert(t[a] == s[a0] && t[b] == s[b0]);
        assert(s[a0].id != s[b0].id && s[a0].addr != s[b0].addr);
    }
}

} // verus!
