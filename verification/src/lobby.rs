//! Pre-game lobbies: membership, readiness, and the leader-gated start.

use vstd::prelude::*;

use crate::messages::{
    Broadcast, GameError, LobbyBroadcast, LobbyData, LobbyEvent, LobbyInfo, PlayerInfo,
    ResponseData,
};
use crate::player::PlayerService;

verus! {

/// A player's membership record in a lobby.
#[derive(Debug, Clone, Copy, PartialEq, Eq, Structural)]
pub struct LobbyPlayer {
    pub player_id: u32,
    pub ready: bool,
}

impl LobbyPlayer {
    pub fn new(player_id: u32) -> (lp: LobbyPlayer)
        ensures
            lp == (LobbyPlayer { player_id, ready: false }),
    {
        LobbyPlayer { player_id, ready: false }
    }

    pub fn get_ready(&self) -> (r: bool)
        ensures
            r == self.ready,
    {
        self.ready
    }

    pub fn set_ready(&mut self, ready: bool)
        ensures
            *final(self) == (LobbyPlayer { ready, ..*old(self) }),
    {
        self.ready = ready;
    }
}

/// The given id is a member of the roster.
pub open spec fn roster_has(ps: Seq<LobbyPlayer>, pid: u32) -> bool {
    exists|i: int| 0 <= i < ps.len() && (#[trigger] ps[i]).player_id == pid
}

/// No member appears twice.
pub open spec fn roster_unique(ps: Seq<LobbyPlayer>) -> bool {
    forall|i: int, j: int|
        0 <= i < j < ps.len() ==> (#[trigger] ps[i]).player_id != (#[trigger] ps[j]).player_id
}

/// Every member has set their ready flag.
pub open spec fn roster_all_ready(ps: Seq<LobbyPlayer>) -> bool {
    forall|i: int| 0 <= i < ps.len() ==> (#[trigger] ps[i]).ready
}

/// The member ids, in joining order.
pub open spec fn roster_ids(ps: Seq<LobbyPlayer>) -> Seq<u32> {
    ps.map(|i: int, lp: LobbyPlayer| lp.player_id)
}

/// One pre-game room.
#[derive(Debug)]
pub struct Lobby {
    id: u32,
    max_players: u32,
    players: Vec<LobbyPlayer>,
    /// The id of the owning player: only they may start, and their
    /// leaving destroys the room.
    leader: u32,
}

impl Clone for Lobby {
    /// A clone holds the same id, bound, roster and leader.
    fn clone(&self) -> (r: Lobby)
        ensures
            r.spec_id() == self.spec_id(),
            r.spec_max_players() == self.spec_max_players(),
            r.roster() == self.roster(),
            r.spec_leader() == self.spec_leader(),
    {
        let n = self.players.len();
        let mut players: Vec<LobbyPlayer> = Vec::new();
        let mut i: usize = 0;
        while i < n
            invariant
                n == self.players@.len(),
                i <= n,
                players@ == self.players@.take(i as int),
            decreases n - i,
        {
            players.push(self.players[i]);
            proof {
                assert(players@ =~= self.players@.take(i + 1));
            }
            i = i + 1;
        }
        proof {
            assert(players@ =~= self.players@);
        }
        Lobby { id: self.id, max_players: self.max_players, players, leader: self.leader }
    }
}

impl Lobby {
    pub closed spec fn spec_id(&self) -> u32 {
        self.id
    }

    pub closed spec fn spec_leader(&self) -> u32 {
        self.leader
    }

    pub fn get_leader(&self) -> (l: u32)
        ensures
            l == self.spec_leader(),
    {
        self.leader
    }

    pub closed spec fn spec_max_players(&self) -> u32 {
        self.max_players
    }

    pub closed spec fn roster(&self) -> Seq<LobbyPlayer> {
        self.players@
    }

    pub open spec fn wf(&self) -> bool {
        &&& roster_unique(self.roster())
        &&& 4 <= self.spec_max_players() <= 8
        &&& self.roster().len() <= self.spec_max_players()
    }

    /// A new room: the leader is pre-joined, not ready.
    pub fn new(id: u32, max_players: u32, leader: u32) -> (l: Lobby)
        requires
            4 <= max_players <= 8,
        ensures
            l.wf(),
            l.spec_id() == id,
            l.spec_max_players() == max_players,
            l.spec_leader() == leader,
            l.roster() == seq![LobbyPlayer { player_id: leader, ready: false }],
    {
        let mut players: Vec<LobbyPlayer> = Vec::new();
        players.push(LobbyPlayer::new(leader));
        proof {
            assert(players@ =~= seq![LobbyPlayer { player_id: leader, ready: false }]);
        }
        Lobby { id, max_players, players, leader }
    }

    pub fn get_id(&self) -> (i: u32)
        ensures
            i == self.spec_id(),
    {
        self.id
    }

    pub fn get_max_players(&self) -> (m: u32)
        ensures
            m == self.spec_max_players(),
    {
        self.max_players
    }

    /// Index of the member with this id.
    fn index_of(&self, pid: u32) -> (r: Option<usize>)
        ensures
            match r {
                Some(i) => i < self.roster().len() && self.roster()[i as int].player_id == pid,
                None => !roster_has(self.roster(), pid),
            },
    {
        let n = self.players.len();
        let mut i: usize = 0;
        while i < n
            invariant
                n == self.roster().len(),
                i <= n,
                forall|j: int| 0 <= j < i ==> (#[trigger] self.roster()[j]).player_id != pid,
            decreases n - i,
        {
            if self.players[i].player_id == pid {
                return Some(i);
            }
            i = i + 1;
        }
        None
    }

    /// Joins a player: rejected when already a member or when the room
    /// is full.
    pub fn add_player(&mut self, pid: u32) -> (r: Result<(), GameError>)
        requires
            old(self).wf(),
        ensures
            final(self).wf(),
            final(self).spec_id() == old(self).spec_id(),
            final(self).spec_max_players() == old(self).spec_max_players(),
            final(self).spec_leader() == old(self).spec_leader(),
            match r {
                Ok(()) => !roster_has(old(self).roster(), pid) && old(self).roster().len() < old(self).spec_max_players() && final(self).roster() == old(self).roster().push(
                    LobbyPlayer { player_id: pid, ready: false },
                ),
                Err(e) => final(self).roster() == old(self).roster() && ((e
                    == GameError::PlayerAlreadyInThisLobby && roster_has(old(self).roster(), pid))
                    || (e == GameError::LobbyFull && !roster_has(old(self).roster(), pid) && old(self).roster().len() >= old(self).spec_max_players())),
            },
    {
        match self.index_of(pid) {
            Some(_) => Err(GameError::PlayerAlreadyInThisLobby),
            None => {
                if self.players.len() >= self.max_players as usize {
                    Err(GameError::LobbyFull)
                } else {
                    self.players.push(LobbyPlayer::new(pid));
                    Ok(())
                }
            },
        }
    }

    /// The membership record of a player, if any.
    pub fn get_player(&self, pid: u32) -> (r: Option<LobbyPlayer>)
        ensures
            match r {
                Some(lp) => exists|i: int|
                    0 <= i < self.roster().len() && (#[trigger] self.roster()[i]) == lp
                        && lp.player_id == pid,
                None => !roster_has(self.roster(), pid),
            },
    {
        match self.index_of(pid) {
            Some(i) => Some(self.players[i]),
            None => None,
        }
    }

    /// The full roster, in joining order.
    pub fn get_players(&self) -> (r: Vec<LobbyPlayer>)
        ensures
            r@ == self.roster(),
    {
        let n = self.players.len();
        let mut r: Vec<LobbyPlayer> = Vec::new();
        let mut i: usize = 0;
        while i < n
            invariant
                n == self.roster().len(),
                i <= n,
                r@ == self.roster().take(i as int),
            decreases n - i,
        {
            r.push(self.players[i]);
            proof {
                assert(r@ =~= self.roster().take(i + 1));
            }
            i = i + 1;
        }
        proof {
            assert(r@ =~= self.roster());
        }
        r
    }

    /// Sets a member's ready flag; reports whether the member exists.
    pub fn set_ready(&mut self, pid: u32, ready: bool) -> (found: bool)
        requires
            old(self).wf(),
        ensures
            final(self).wf(),
            final(self).spec_id() == old(self).spec_id(),
            final(self).spec_max_players() == old(self).spec_max_players(),
            final(self).spec_leader() == old(self).spec_leader(),
            found == roster_has(old(self).roster(), pid),
            found ==> exists|i: int|
                0 <= i < old(self).roster().len() && (#[trigger] old(self).roster()[i]).player_id
                    == pid && final(self).roster() == old(self).roster().update(
                    i,
                    LobbyPlayer { player_id: pid, ready },
                ),
            !found ==> final(self).roster() == old(self).roster(),
    {
        match self.index_of(pid) {
            Some(i) => {
                let _ = self.players.remove(i);
                self.players.insert(i, LobbyPlayer { player_id: pid, ready });
                proof {
                    assert(self.players@ =~= old(self).roster().update(
                        i as int,
                        LobbyPlayer { player_id: pid, ready },
                    ));
                    assert forall|a: int, b: int|
                        0 <= a < b < self.players@.len() implies (
                        #[trigger] self.players@[a]).player_id != (
                        #[trigger] self.players@[b]).player_id by {
                        assert(old(self).roster()[a].player_id != old(self).roster()[b].player_id);
                    }
                }
                true
            },
            None => false,
        }
    }

    /// Removes a member, handing the record back.
    pub fn remove_player(&mut self, pid: u32) -> (r: Result<LobbyPlayer, GameError>)
        requires
            old(self).wf(),
        ensures
            final(self).wf(),
            final(self).spec_id() == old(self).spec_id(),
            final(self).spec_max_players() == old(self).spec_max_players(),
            final(self).spec_leader() == old(self).spec_leader(),
            match r {
                Ok(lp) => lp.player_id == pid && exists|i: int|
                    0 <= i < old(self).roster().len() && (#[trigger] old(self).roster()[i]) == lp
                        && final(self).roster() == old(self).roster().remove(i),
                Err(e) => e == GameError::PlayerNotInLobby && !roster_has(old(self).roster(), pid)
                    && final(self).roster() == old(self).roster(),
            },
            !roster_has(final(self).roster(), pid),
    {
        match self.index_of(pid) {
            Some(i) => {
                let lp = self.players.remove(i);
                proof {
                    assert forall|a: int, b: int|
                        0 <= a < b < self.players@.len() implies (
                        #[trigger] self.players@[a]).player_id != (
                        #[trigger] self.players@[b]).player_id by {
                        let a0 = if a < i as int { a } else { a + 1 };
                        let b0 = if b < i as int { b } else { b + 1 };
                        assert(old(self).roster()[a0].player_id != old(self).roster()[
                            b0].player_id);
                    }
                    assert forall|a: int| 0 <= a < self.players@.len() implies (
                    #[trigger] self.players@[a]).player_id != pid by {
                        let a0 = if a < i as int { a } else { a + 1 };
                        assert(self.players@[a] == old(self).roster()[a0]);
                        if a0 != i as int {
                            assert(old(self).roster()[a0].player_id != old(self).roster()[
                                i as int].player_id);
                        }
                    }
                }
                Ok(lp)
            },
            None => Err(GameError::PlayerNotInLobby),
        }
    }

    /// The roster as response data, with names looked up in the session
    /// registry (a missing entry keeps an empty name).
    pub fn to_lobby_data(&self, players: &PlayerService) -> (r: LobbyData)
        requires
            players.wf(),
        ensures
            r.id == self.spec_id(),
            r.players@.len() == self.roster().len(),
            forall|i: int|
                0 <= i < r.players@.len() ==> (#[trigger] r.players@[i]).id
                    == self.roster()[i].player_id,
    {
        let n = self.players.len();
        let mut infos: Vec<PlayerInfo> = Vec::new();
        let mut i: usize = 0;
        while i < n
            invariant
                players.wf(),
                n == self.roster().len(),
                i <= n,
                infos@.len() == i,
                forall|j: int|
                    0 <= j < i ==> (#[trigger] infos@[j]).id == self.roster()[j].player_id,
            decreases n - i,
        {
            let pid = self.players[i].player_id;
            let name = match players.get_player(pid) {
                Some(p) => p.name,
                None => String::new(),
            };
            infos.push(PlayerInfo { id: pid, name });
            i = i + 1;
        }
        LobbyData { id: self.id, players: infos }
    }

    /// The listing line for this room.
    pub fn to_lobby_info(&self) -> (r: LobbyInfo)
        requires
            self.wf(),
        ensures
            r.id == self.spec_id(),
            r.max_players == self.spec_max_players(),
            r.cur_players == self.roster().len(),
    {
        LobbyInfo {
            id: self.id,
            max_players: self.max_players,
            cur_players: self.players.len() as u32,
        }
    }
}


/// The broadcast is a lobby notification with this event, addressed to
/// exactly these players.
pub open spec fn lobby_event_broadcast(bc: Broadcast, targets: Seq<u32>, ev: LobbyEvent) -> bool {
    bc.targets@ == targets && match bc.data {
        ResponseData::LobbyBroadcast(lb) => lb.event == ev,
        _ => false,
    }
}

/// A room with this id is registered.
pub open spec fn lobbies_has(ls: Seq<Lobby>, id: u32) -> bool {
    exists|i: int| 0 <= i < ls.len() && (#[trigger] ls[i]).spec_id() == id
}

/// The slot of the room with this id (meaningful under `lobbies_has`).
pub open spec fn lobby_index_of(ls: Seq<Lobby>, id: u32) -> int {
    choose|i: int| 0 <= i < ls.len() && (#[trigger] ls[i]).spec_id() == id
}

/// The registered room with this id.
pub open spec fn lobby_of(ls: Seq<Lobby>, id: u32) -> Lobby {
    ls[lobby_index_of(ls, id)]
}

/// Under unique ids, any slot holding `id` is the registered room.
pub proof fn lemma_lobby_of_index(ls: Seq<Lobby>, i: int, id: u32)
    requires
        forall|a: int, b: int|
            0 <= a < b < ls.len() ==> (#[trigger] ls[a]).spec_id() != (#[trigger] ls[b]).spec_id(),
        0 <= i < ls.len(),
        ls[i].spec_id() == id,
    ensures
        lobbies_has(ls, id),
        lobby_of(ls, id) == ls[i],
{
    assert(lobbies_has(ls, id));
    let j = lobby_index_of(ls, id);
    assert(0 <= j < ls.len() && ls[j].spec_id() == id);
    if j != i {
        assert(ls[i].spec_id() != ls[j].spec_id());
    }
}

/// The registry of open rooms.
#[derive(Debug)]
pub struct LobbyService {
    next_lobby_id: u32,
    lobbies: Vec<Lobby>,
}

impl LobbyService {
    pub closed spec fn spec_lobbies(&self) -> Seq<Lobby> {
        self.lobbies@
    }

    pub closed spec fn spec_next_id(&self) -> u32 {
        self.next_lobby_id
    }

    pub open spec fn wf(&self) -> bool {
        &&& forall|i: int, j: int|
            0 <= i < j < self.spec_lobbies().len() ==> (#[trigger] self.spec_lobbies()[
                i]).spec_id() != (#[trigger] self.spec_lobbies()[j]).spec_id()
        &&& forall|i: int| 0 <= i < self.spec_lobbies().len() ==> (#[trigger] self.spec_lobbies()[
            i]).wf()
        &&& forall|i: int| 0 <= i < self.spec_lobbies().len() ==> (#[trigger] self.spec_lobbies()[
            i]).spec_id() < self.spec_next_id()
    }

    pub fn new() -> (s: LobbyService)
        ensures
            s.wf(),
            s.spec_lobbies().len() == 0,
            s.spec_next_id() == 0,
    {
        LobbyService { next_lobby_id: 0, lobbies: Vec::new() }
    }

    /// The id the next room would take.
    pub fn next_id(&self) -> (i: u32)
        ensures
            i == self.spec_next_id(),
    {
        self.next_lobby_id
    }

    /// Index of the room with this id.
    fn index_of(&self, id: u32) -> (r: Option<usize>)
        ensures
            match r {
                Some(i) => i < self.spec_lobbies().len() && self.spec_lobbies()[i as int].spec_id()
                    == id,
                None => !lobbies_has(self.spec_lobbies(), id),
            },
    {
        let n = self.lobbies.len();
        let mut i: usize = 0;
        while i < n
            invariant
                n == self.spec_lobbies().len(),
                i <= n,
                forall|j: int| 0 <= j < i ==> (#[trigger] self.spec_lobbies()[j]).spec_id() != id,
            decreases n - i,
        {
            if self.lobbies[i].get_id() == id {
                return Some(i);
            }
            i = i + 1;
        }
        None
    }

    /// Opens a room led by `leader_id`. Fails exactly when the player
    /// bound is outside 4 to 8.
    pub fn create_lobby(&mut self, players: &mut PlayerService, leader_id: u32, max_players: u32)
        -> (r: Result<u32, GameError>)
        requires
            old(self).wf(),
            old(players).wf(),
            old(self).spec_next_id() < u32::MAX,
        ensures
            final(self).wf(),
            final(players).wf(),
            match r {
                Ok(id) => {
                    &&& 4 <= max_players <= 8
                    &&& id == old(self).spec_next_id()
                    &&& final(self).spec_next_id() == old(self).spec_next_id() + 1
                    &&& final(self).spec_lobbies().len() == old(self).spec_lobbies().len() + 1
                    &&& final(self).spec_lobbies() == old(self).spec_lobbies().push(
                        final(self).spec_lobbies().last(),
                    )
                    &&& final(self).spec_lobbies().last().spec_id() == id
                    &&& final(self).spec_lobbies().last().spec_leader() == leader_id
                    &&& final(self).spec_lobbies().last().spec_max_players() == max_players
                    &&& final(self).spec_lobbies().last().roster() == seq![
                        LobbyPlayer { player_id: leader_id, ready: false },
                    ]
                    &&& (old(players).has(leader_id) ==> final(players).player_of(
                        leader_id,
                    ).lobby == Some(id))
                },
                Err(e) => {
                    &&& e == GameError::InvalidMaxPlayers
                    &&& !(4 <= max_players <= 8)
                    &&& final(self).spec_lobbies() == old(self).spec_lobbies()
                    &&& final(players).players() == old(players).players()
                },
            },
    {
        if max_players < 4 || max_players > 8 {
            return Err(GameError::InvalidMaxPlayers);
        }
        let id = self.next_lobby_id;
        let lobby = Lobby::new(id, max_players, leader_id);
        self.lobbies.push(lobby);
        self.next_lobby_id = id + 1;
        players.set_player_lobby(leader_id, Some(id));
        proof {
            assert(final(self).spec_lobbies() =~= old(self).spec_lobbies().push(
                final(self).spec_lobbies().last(),
            ));
            if old(players).has(leader_id) {
                let i = choose|i: int|
                    0 <= i < old(players).players().len() && (#[trigger] old(players).players()[i]).id == leader_id;
                assert(final(players).players()[i].id == leader_id);
                assert(final(players).players()[i].lobby == Some(id));
                let j = choose|j: int|
                    0 <= j < final(players).players().len() && (#[trigger] final(players).players()[j]).id == leader_id;
                assert(j == i);
            }
        }
        Ok(id)
    }

    /// A borrowed view of a room.
    pub fn get_lobby(&self, id: u32) -> (r: Option<&Lobby>)
        ensures
            match r {
                Some(l) => l.spec_id() == id && exists|i: int|
                    0 <= i < self.spec_lobbies().len() && *l == (#[trigger] self.spec_lobbies()[
                        i]),
                None => !lobbies_has(self.spec_lobbies(), id),
            },
    {
        match self.index_of(id) {
            Some(i) => Some(&self.lobbies[i]),
            None => None,
        }
    }

    /// The open rooms' listing lines.
    pub fn get_lobbies(&self) -> (r: Vec<LobbyInfo>)
        requires
            self.wf(),
        ensures
            r@.len() == self.spec_lobbies().len(),
            forall|i: int|
                0 <= i < r@.len() ==> (#[trigger] r@[i]) == (LobbyInfo {
                    id: self.spec_lobbies()[i].spec_id(),
                    max_players: self.spec_lobbies()[i].spec_max_players(),
                    cur_players: self.spec_lobbies()[i].roster().len() as u32,
                }),
    {
        let n = self.lobbies.len();
        let mut r: Vec<LobbyInfo> = Vec::new();
        let mut i: usize = 0;
        while i < n
            invariant
                self.wf(),
                n == self.spec_lobbies().len(),
                i <= n,
                r@.len() == i,
                forall|j: int|
                    0 <= j < i ==> (#[trigger] r@[j]) == (LobbyInfo {
                        id: self.spec_lobbies()[j].spec_id(),
                        max_players: self.spec_lobbies()[j].spec_max_players(),
                        cur_players: self.spec_lobbies()[j].roster().len() as u32,
                    }),
            decreases n - i,
        {
            proof {
                assert(self.spec_lobbies()[i as int].wf());
            }
            r.push(self.lobbies[i].to_lobby_info());
            i = i + 1;
        }
        r
    }

    /// Replaces the room at a slot.
    fn set_lobby_at(&mut self, i: usize, lobby: Lobby)
        requires
            i < old(self).spec_lobbies().len(),
        ensures
            final(self).spec_lobbies() == old(self).spec_lobbies().update(i as int, lobby),
            final(self).spec_next_id() == old(self).spec_next_id(),
    {
        let _ = self.lobbies.remove(i);
        self.lobbies.insert(i, lobby);
        proof {
            assert(self.lobbies@ =~= old(self).spec_lobbies().update(i as int, lobby));
        }
    }

    /// Joins a registered, lobbyless player to a room, telling the other
    /// members. Fails when the player is unknown, already in a room, the
    /// room is unknown or full.
    pub fn add_player_to_lobby(
        &mut self,
        players: &mut PlayerService,
        player_id: u32,
        lobby_id: u32,
        outbox: &mut Vec<Broadcast>,
    ) -> (r: Result<(), GameError>)
        requires
            old(self).wf(),
            old(players).wf(),
        ensures
            final(self).wf(),
            final(players).wf(),
            final(self).spec_next_id() == old(self).spec_next_id(),
            match r {
                Ok(()) => {
                    &&& old(players).has(player_id)
                    &&& old(players).player_of(player_id).lobby is None
                    &&& exists|i: int|
                        0 <= i < old(self).spec_lobbies().len() && (#[trigger] old(self).spec_lobbies()[i]).spec_id() == lobby_id && final(self).spec_lobbies()
                            == old(self).spec_lobbies().update(
                            i,
                            final(self).spec_lobbies()[i],
                        ) && final(self).spec_lobbies()[i].roster() == old(self).spec_lobbies()[
                            i].roster().push(LobbyPlayer { player_id, ready: false })
                            && !roster_has(old(self).spec_lobbies()[i].roster(), player_id)
                            && old(self).spec_lobbies()[i].roster().len() < old(self).spec_lobbies()[i].spec_max_players()
                            && final(self).spec_lobbies()[i].spec_id() == lobby_id
                            && final(self).spec_lobbies()[i].spec_leader() == old(self).spec_lobbies()[i].spec_leader() && final(self).spec_lobbies()[
                            i].spec_max_players() == old(self).spec_lobbies()[i].spec_max_players()
                            && lobby_event_broadcast(
                            final(outbox)@.last(),
                            roster_ids(old(self).spec_lobbies()[i].roster()),
                            LobbyEvent::Join,
                        )
                    &&& final(players).player_of(player_id).lobby == Some(lobby_id)
                    &&& final(outbox)@.len() == old(outbox)@.len() + 1
                    &&& final(outbox)@ == old(outbox)@.push(final(outbox)@.last())
                },
                Err(e) => {
                    &&& final(self).spec_lobbies() == old(self).spec_lobbies()
                    &&& final(players).players() == old(players).players()
                    &&& final(outbox)@ == old(outbox)@
                    &&& (e == GameError::PlayerNotFound || e == GameError::PlayerAlreadyInLobby
                        || e == GameError::LobbyNotFound || e
                        == GameError::PlayerAlreadyInThisLobby || e == GameError::LobbyFull)
                    &&& (e == GameError::PlayerNotFound <==> !old(players).has(player_id))
                    &&& (e == GameError::PlayerAlreadyInLobby <==> (old(players).has(player_id)
                        && old(players).player_of(player_id).lobby is Some))
                    &&& (e == GameError::LobbyNotFound <==> (old(players).has(player_id) && old(players).player_of(player_id).lobby is None && !lobbies_has(
                        old(self).spec_lobbies(),
                        lobby_id,
                    )))
                    &&& (e == GameError::PlayerAlreadyInThisLobby <==> (old(players).has(player_id)
                        && old(players).player_of(player_id).lobby is None && lobbies_has(
                        old(self).spec_lobbies(),
                        lobby_id,
                    ) && roster_has(
                        lobby_of(old(self).spec_lobbies(), lobby_id).roster(),
                        player_id,
                    )))
                    &&& (e == GameError::LobbyFull <==> (old(players).has(player_id) && old(players).player_of(player_id).lobby is None && lobbies_has(
                        old(self).spec_lobbies(),
                        lobby_id,
                    ) && !roster_has(
                        lobby_of(old(self).spec_lobbies(), lobby_id).roster(),
                        player_id,
                    ) && lobby_of(old(self).spec_lobbies(), lobby_id).roster().len() >= lobby_of(
                        old(self).spec_lobbies(),
                        lobby_id,
                    ).spec_max_players()))
                },
            },
    {
        let p = match players.get_player(player_id) {
            Some(p) => p,
            None => {
                return Err(GameError::PlayerNotFound);
            },
        };
        proof {
            let i = choose|i: int|
                0 <= i < players.players().len() && (#[trigger] players.players()[i]).id
                    == player_id;
            let j = choose|j: int|
                0 <= j < players.players().len() && (#[trigger] players.players()[j]).id
                    == player_id;
            assert(i == j);
        }
        if p.lobby.is_some() {
            return Err(GameError::PlayerAlreadyInLobby);
        }
        let li = match self.index_of(lobby_id) {
            Some(i) => i,
            None => {
                return Err(GameError::LobbyNotFound);
            },
        };
        proof {
            assert(old(self).spec_lobbies()[li as int].wf());
            lemma_lobby_of_index(old(self).spec_lobbies(), li as int, lobby_id);
        }
        let mut lobby = self.lobbies[li].clone();
        let ghost roster_before = lobby.roster();
        match lobby.add_player(player_id) {
            Ok(()) => {},
            Err(e) => {
                return Err(e);
            },
        }
        // tell everyone already in the room
        let targets = member_ids_of(&roster_before_vec(&self.lobbies[li]));
        let data = lobby.to_lobby_data(players);
        self.set_lobby_at(li, lobby);
        outbox.push(
            Broadcast {
                targets,
                data: ResponseData::LobbyBroadcast(
                    LobbyBroadcast {
                        event: LobbyEvent::Join,
                        lobby: Some(data),
                        cards: None,
                        current_player: None,
                        next_player: None,
                    },
                ),
            },
        );
        players.set_player_lobby(player_id, Some(lobby_id));
        proof {
            assert(final(outbox)@ == old(outbox)@.push(final(outbox)@.last()));
            assert forall|a: int, b: int|
                0 <= a < b < final(self).spec_lobbies().len() implies (#[trigger] final(self).spec_lobbies()[a]).spec_id() != (#[trigger] final(self).spec_lobbies()[
                b]).spec_id() by {
                assert(old(self).spec_lobbies()[a].spec_id() != old(self).spec_lobbies()[
                    b].spec_id());
            }
            let i = choose|i: int|
                0 <= i < old(players).players().len() && (#[trigger] old(players).players()[
                    i]).id == player_id;
            assert(final(players).players()[i].id == player_id);
            assert(final(players).players()[i].lobby == Some(lobby_id));
            let j = choose|j: int|
                0 <= j < final(players).players().len() && (#[trigger] final(players).players()[
                    j]).id == player_id;
            assert(j == i);
        }
        Ok(())
    }
}

/// The roster of a room, copied out (helper for broadcasting).
fn roster_before_vec(l: &Lobby) -> (r: Vec<LobbyPlayer>)
    ensures
        r@ == l.roster(),
{
    l.get_players()
}

/// The ids of a roster's members, in order.
fn member_ids_of(roster: &Vec<LobbyPlayer>) -> (r: Vec<u32>)
    ensures
        r@ == roster_ids(roster@),
{
    let n = roster.len();
    let mut r: Vec<u32> = Vec::new();
    let mut i: usize = 0;
    while i < n
        invariant
            n == roster@.len(),
            i <= n,
            r@.len() == i,
            forall|j: int| 0 <= j < i ==> (#[trigger] r@[j]) == roster@[j].player_id,
        decreases n - i,
    {
        r.push(roster[i].player_id);
        i = i + 1;
    }
    proof {
        assert(r@ =~= roster_ids(roster@));
    }
    r
}


/// What a successful leave did: the member's record came out of their
/// room; when the leaver led the room, the room itself is gone and the
/// remaining members were told `Destroy`, otherwise the shrunk room
/// stays and they were told `Leave`. Either way the leaver's backlink is
/// cleared and exactly one notification was queued.
pub open spec fn left_lobby(
    pre: LobbyService,
    post: LobbyService,
    players_pre: PlayerService,
    players_post: PlayerService,
    pid: u32,
    outbox_pre: Seq<Broadcast>,
    outbox_post: Seq<Broadcast>,
    lp: LobbyPlayer,
) -> bool {
    &&& players_pre.has(pid)
    &&& players_pre.player_of(pid).lobby is Some
    &&& lp.player_id == pid
    &&& exists|i: int, j: int|
        #![trigger pre.spec_lobbies()[i].roster()[j]]
        {
            let lobby = pre.spec_lobbies()[i];
            &&& 0 <= i < pre.spec_lobbies().len()
            &&& lobby.spec_id() == players_pre.player_of(pid).lobby->Some_0
            &&& 0 <= j < lobby.roster().len()
            &&& lobby.roster()[j] == lp
            &&& (if pid == lobby.spec_leader() {
                &&& post.spec_lobbies() == pre.spec_lobbies().remove(i)
                &&& lobby_event_broadcast(
                    outbox_post.last(),
                    roster_ids(lobby.roster().remove(j)),
                    LobbyEvent::Destroy,
                )
            } else {
                &&& post.spec_lobbies() == pre.spec_lobbies().update(i, post.spec_lobbies()[i])
                &&& post.spec_lobbies()[i].roster() == lobby.roster().remove(j)
                &&& post.spec_lobbies()[i].spec_id() == lobby.spec_id()
                &&& post.spec_lobbies()[i].spec_leader() == lobby.spec_leader()
                &&& lobby_event_broadcast(
                    outbox_post.last(),
                    roster_ids(lobby.roster().remove(j)),
                    LobbyEvent::Leave,
                )
            })
        }
    &&& players_post.player_of(pid).lobby is None
    &&& players_post.player_of(pid).game == players_pre.player_of(pid).game
    &&& outbox_post == outbox_pre.push(outbox_post.last())
}

impl LobbyService {
    /// Removes a player from their room, cascading to the room's
    /// destruction when the leader leaves; the remaining members are
    /// told which of the two happened.
    pub fn remove_player_from_lobby(
        &mut self,
        players: &mut PlayerService,
        player_id: u32,
        outbox: &mut Vec<Broadcast>,
    ) -> (r: Result<LobbyPlayer, GameError>)
        requires
            old(self).wf(),
            old(players).wf(),
        ensures
            final(self).wf(),
            final(players).wf(),
            final(self).spec_next_id() == old(self).spec_next_id(),
            match r {
                Ok(lp) => left_lobby(
                    *old(self),
                    *final(self),
                    *old(players),
                    *final(players),
                    player_id,
                    old(outbox)@,
                    final(outbox)@,
                    lp,
                ),
                Err(e) => {
                    let lid = old(players).player_of(player_id).lobby->Some_0;
                    &&& final(self).spec_lobbies() == old(self).spec_lobbies()
                    &&& final(players).players() == old(players).players()
                    &&& final(outbox)@ == old(outbox)@
                    &&& (e == GameError::PlayerNotFound || e == GameError::PlayerNotInLobby || e
                        == GameError::LobbyNotFound)
                    &&& (e == GameError::PlayerNotFound <==> !old(players).has(player_id))
                    &&& (e == GameError::LobbyNotFound <==> (old(players).has(player_id) && old(players).player_of(player_id).lobby is Some && !lobbies_has(
                        old(self).spec_lobbies(),
                        lid,
                    )))
                    &&& (e == GameError::PlayerNotInLobby <==> (old(players).has(player_id) && (
                    old(players).player_of(player_id).lobby is None || (old(players).player_of(
                        player_id,
                    ).lobby is Some && lobbies_has(old(self).spec_lobbies(), lid) && !roster_has(
                        lobby_of(old(self).spec_lobbies(), lid).roster(),
                        player_id,
                    )))))
                },
            },
            forall|id: u32| #[trigger] final(players).has(id) == old(players).has(id),
    {
        let p = match players.get_player(player_id) {
            Some(p) => p,
            None => {
                return Err(GameError::PlayerNotFound);
            },
        };
        proof {
            let i = choose|i: int|
                0 <= i < players.players().len() && (#[trigger] players.players()[i]).id
                    == player_id;
            let j = choose|j: int|
                0 <= j < players.players().len() && (#[trigger] players.players()[j]).id
                    == player_id;
            assert(i == j);
        }
        let lid = match p.lobby {
            Some(l) => l,
            None => {
                return Err(GameError::PlayerNotInLobby);
            },
        };
        let li = match self.index_of(lid) {
            Some(i) => i,
            None => {
                return Err(GameError::LobbyNotFound);
            },
        };
        proof {
            assert(old(self).spec_lobbies()[li as int].wf());
            lemma_lobby_of_index(old(self).spec_lobbies(), li as int, lid);
        }
        let mut lobby = self.lobbies[li].clone();
        let ghost lobby0 = self.lobbies@[li as int];
        let ghost ridx = choose|j: int|
            0 <= j < lobby.roster().len() && (#[trigger] lobby.roster()[j]).player_id == player_id;
        let lp = match lobby.remove_player(player_id) {
            Ok(lp) => lp,
            Err(e) => {
                return Err(e);
            },
        };
        proof {
            let j2 = choose|j2: int|
                0 <= j2 < lobby0.roster().len() && (#[trigger] lobby0.roster()[j2]) == lp
                    && lobby.roster() == lobby0.roster().remove(j2);
            assert(lobby0.roster()[j2].player_id == player_id);
        }
        let is_destroy = player_id == lobby.get_leader();
        let remaining = lobby.get_players();
        let targets = member_ids_of(&remaining);
        let data = lobby.to_lobby_data(players);
        let ev = if is_destroy {
            LobbyEvent::Destroy
        } else {
            LobbyEvent::Leave
        };
        outbox.push(
            Broadcast {
                targets,
                data: ResponseData::LobbyBroadcast(
                    LobbyBroadcast {
                        event: ev,
                        lobby: Some(data),
                        cards: None,
                        current_player: None,
                        next_player: None,
                    },
                ),
            },
        );
        players.set_player_lobby(player_id, None);
        if is_destroy {
            let _ = self.lobbies.remove(li);
            proof {
                assert forall|a: int, b: int|
                    0 <= a < b < self.lobbies@.len() implies (#[trigger] self.lobbies@[
                    a]).spec_id() != (#[trigger] self.lobbies@[b]).spec_id() by {
                    let a0 = if a < li as int { a } else { a + 1 };
                    let b0 = if b < li as int { b } else { b + 1 };
                    assert(old(self).spec_lobbies()[a0].spec_id() != old(self).spec_lobbies()[
                        b0].spec_id());
                }
                assert(self.lobbies@ =~= old(self).spec_lobbies().remove(li as int));
            }
        } else {
            self.set_lobby_at(li, lobby);
            proof {
                assert forall|a: int, b: int|
                    0 <= a < b < self.lobbies@.len() implies (#[trigger] self.lobbies@[
                    a]).spec_id() != (#[trigger] self.lobbies@[b]).spec_id() by {
                    assert(old(self).spec_lobbies()[a].spec_id() != old(self).spec_lobbies()[
                        b].spec_id());
                }
            }
        }
        proof {
            let i = choose|i: int|
                0 <= i < old(players).players().len() && (#[trigger] old(players).players()[
                    i]).id == player_id;
            assert(final(players).players()[i].id == player_id);
            assert(final(players).players()[i].lobby is None);
            assert(final(players).players()[i].game == old(players).players()[i].game);
            let j = choose|j: int|
                0 <= j < final(players).players().len() && (#[trigger] final(players).players()[
                    j]).id == player_id;
            assert(j == i);
            old(players).lemma_player_of_index(i, player_id);
            final(players).lemma_player_of_index(i, player_id);
            let j2 = choose|j2: int|
                0 <= j2 < lobby0.roster().len() && (#[trigger] lobby0.roster()[j2]) == lp
                    && lobby.roster() == lobby0.roster().remove(j2);
            assert((li as int) < old(self).spec_lobbies().len());
            assert(old(self).spec_lobbies()[li as int].spec_id() == old(players).player_of(
                player_id,
            ).lobby->Some_0);
            assert(0 <= j2 < lobby0.roster().len() && lobby0.roster()[j2] == lp);
            if !is_destroy {
                assert(final(self).spec_lobbies() =~= old(self).spec_lobbies().update(
                    li as int,
                    final(self).spec_lobbies()[li as int],
                ));
            }
            assert(final(outbox)@ == old(outbox)@.push(final(outbox)@.last()));
            assert forall|id: u32| #[trigger] final(players).has(id) == old(players).has(id) by {
                if old(players).has(id) {
                    let m = choose|m: int|
                        0 <= m < old(players).players().len() && (#[trigger] old(players).players()[m]).id == id;
                    assert(final(players).players()[m].id == id);
                }
                if final(players).has(id) {
                    let m = choose|m: int|
                        0 <= m < final(players).players().len() && (#[trigger] final(players).players()[m]).id == id;
                    assert(old(players).players()[m].id == id);
                }
            }
        }
        Ok(lp)
    }

    /// Deregisters a room outright.
    pub fn remove_lobby(&mut self, lobby_id: u32) -> (r: Result<(), GameError>)
        requires
            old(self).wf(),
        ensures
            final(self).wf(),
            final(self).spec_next_id() == old(self).spec_next_id(),
            match r {
                Ok(()) => exists|i: int|
                    0 <= i < old(self).spec_lobbies().len() && (#[trigger] old(self).spec_lobbies()[i]).spec_id() == lobby_id && final(self).spec_lobbies() == old(self).spec_lobbies().remove(i),
                Err(e) => e == GameError::LobbyNotFound && !lobbies_has(
                    old(self).spec_lobbies(),
                    lobby_id,
                ) && final(self).spec_lobbies() == old(self).spec_lobbies(),
            },
    {
        match self.index_of(lobby_id) {
            Some(i) => {
                let _ = self.lobbies.remove(i);
                proof {
                    assert forall|a: int, b: int|
                        0 <= a < b < self.lobbies@.len() implies (#[trigger] self.lobbies@[
                        a]).spec_id() != (#[trigger] self.lobbies@[b]).spec_id() by {
                        let a0 = if a < i as int { a } else { a + 1 };
                        let b0 = if b < i as int { b } else { b + 1 };
                        assert(old(self).spec_lobbies()[a0].spec_id() != old(self).spec_lobbies()[
                            b0].spec_id());
                    }
                }
                Ok(())
            },
            None => Err(GameError::LobbyNotFound),
        }
    }
}


/// What a ready toggle did: exactly one member's flag flipped to `v`,
/// in the one room with that id; everything else stands.
pub open spec fn ready_toggled(
    pre: LobbyService,
    post: LobbyService,
    lobby_id: u32,
    player_id: u32,
    v: bool,
) -> bool {
    exists|i: int, j: int|
        #![trigger pre.spec_lobbies()[i].roster()[j]]
        {
            let l0 = pre.spec_lobbies()[i];
            &&& 0 <= i < pre.spec_lobbies().len()
            &&& l0.spec_id() == lobby_id
            &&& 0 <= j < l0.roster().len()
            &&& l0.roster()[j].player_id == player_id
            &&& v == !l0.roster()[j].ready
            &&& post.spec_lobbies() == pre.spec_lobbies().update(i, post.spec_lobbies()[i])
            &&& post.spec_lobbies()[i].roster() == l0.roster().update(
                j,
                LobbyPlayer { player_id, ready: v },
            )
            &&& post.spec_lobbies()[i].spec_id() == l0.spec_id()
            &&& post.spec_lobbies()[i].spec_leader() == l0.spec_leader()
            &&& post.spec_lobbies()[i].spec_max_players() == l0.spec_max_players()
        }
}

impl LobbyService {
    /// Flips a member's ready flag, reporting the new value.
    pub fn toggle_ready(&mut self, lobby_id: u32, player_id: u32) -> (r: Result<bool, GameError>)
        requires
            old(self).wf(),
        ensures
            final(self).wf(),
            final(self).spec_next_id() == old(self).spec_next_id(),
            match r {
                Ok(v) => ready_toggled(*old(self), *final(self), lobby_id, player_id, v),
                Err(e) => {
                    &&& final(self).spec_lobbies() == old(self).spec_lobbies()
                    &&& (e == GameError::LobbyNotFound || e == GameError::PlayerNotInLobby)
                    &&& (e == GameError::LobbyNotFound <==> !lobbies_has(
                        old(self).spec_lobbies(),
                        lobby_id,
                    ))
                    &&& (e == GameError::PlayerNotInLobby <==> (lobbies_has(
                        old(self).spec_lobbies(),
                        lobby_id,
                    ) && !roster_has(
                        lobby_of(old(self).spec_lobbies(), lobby_id).roster(),
                        player_id,
                    )))
                },
            },
    {
        let li = match self.index_of(lobby_id) {
            Some(i) => i,
            None => {
                return Err(GameError::LobbyNotFound);
            },
        };
        proof {
            assert(old(self).spec_lobbies()[li as int].wf());
            lemma_lobby_of_index(old(self).spec_lobbies(), li as int, lobby_id);
        }
        let mut lobby = self.lobbies[li].clone();
        let ghost l0 = self.lobbies@[li as int];
        let lp = match lobby.get_player(player_id) {
            Some(lp) => lp,
            None => {
                return Err(GameError::PlayerNotInLobby);
            },
        };
        let v = !lp.ready;
        let found = lobby.set_ready(player_id, v);
        proof {
            assert(found);
        }
        self.set_lobby_at(li, lobby);
        proof {
            let j = choose|j: int|
                0 <= j < l0.roster().len() && (#[trigger] l0.roster()[j]).player_id == player_id
                    && final(self).spec_lobbies()[li as int].roster() == l0.roster().update(
                    j,
                    LobbyPlayer { player_id, ready: v },
                );
            let j2 = choose|j2: int|
                0 <= j2 < l0.roster().len() && (#[trigger] l0.roster()[j2]) == lp && lp.player_id
                    == player_id;
            assert(l0.roster()[j].player_id == l0.roster()[j2].player_id);
            assert(j == j2) by {
                if j != j2 {
                    assert(l0.roster()[j].player_id != l0.roster()[j2].player_id);
                }
            }
            assert(final(self).spec_lobbies() =~= old(self).spec_lobbies().update(
                li as int,
                final(self).spec_lobbies()[li as int],
            ));
            assert forall|a: int, b: int|
                0 <= a < b < final(self).spec_lobbies().len() implies (#[trigger] final(self).spec_lobbies()[a]).spec_id() != (#[trigger] final(self).spec_lobbies()[
                b]).spec_id() by {
                assert(old(self).spec_lobbies()[a].spec_id() != old(self).spec_lobbies()[
                    b].spec_id());
            }
        }
        Ok(v)
    }
}

} // verus!
