//! Connected players and the session registry that tracks them.
//!
//! A player holds weak references — plain ids — to its current lobby and
//! game; all cross-entity mutation goes through the registries.

use vstd::prelude::*;

use crate::game_service::GameService;
use crate::messages::{Broadcast, GameError, PlayerInfo};

verus! {

/// One connected client.
#[derive(Debug)]
pub struct Player {
    pub id: u32,
    pub name: String,
    pub lobby: Option<u32>,
    pub game: Option<u32>,
    /// Milliseconds timestamp of the last heartbeat, as the caller's
    /// clock reported it.
    pub last_heartbeat: u64,
}

impl Player {
    pub fn new(id: u32, name: String) -> (p: Player)
        ensures
            p.id == id,
            p.name == name,
            p.lobby is None,
            p.game is None,
            p.last_heartbeat == 0,
    {
        Player { id, name, lobby: None, game: None, last_heartbeat: 0 }
    }

    pub fn get_lobby(&self) -> (l: Option<u32>)
        ensures
            l == self.lobby,
    {
        self.lobby
    }

    pub fn set_lobby(&mut self, lobby: Option<u32>)
        ensures
            *final(self) == (Player { lobby, ..*old(self) }),
    {
        self.lobby = lobby;
    }

    pub fn get_game(&self) -> (g: Option<u32>)
        ensures
            g == self.game,
    {
        self.game
    }

    pub fn set_game(&mut self, game: Option<u32>)
        ensures
            *final(self) == (Player { game, ..*old(self) }),
    {
        self.game = game;
    }
}

impl Clone for Player {
    /// A clone carries the same id, name and references.
    fn clone(&self) -> (r: Player)
        ensures
            r.id == self.id,
            r.name@ == self.name@,
            r.lobby == self.lobby,
            r.game == self.game,
            r.last_heartbeat == self.last_heartbeat,
    {
        Player {
            id: self.id,
            name: self.name.clone(),
            lobby: self.lobby,
            game: self.game,
            last_heartbeat: self.last_heartbeat,
        }
    }
}

/// No id registered twice.
pub open spec fn players_unique(ps: Seq<Player>) -> bool {
    forall|i: int, j: int| 0 <= i < j < ps.len() ==> (#[trigger] ps[i]).id != (#[trigger] ps[j]).id
}

/// Some registered player with this id has not heartbeat within the
/// threshold before `now`.
pub open spec fn expired_entry(ps: Seq<Player>, id: u32, now: u64, threshold: u64) -> bool {
    exists|i: int|
        0 <= i < ps.len() && (#[trigger] ps[i]).id == id && ps[i].last_heartbeat + threshold < now
}

/// The registry of online players.
#[derive(Debug)]
pub struct PlayerService {
    online_players: Vec<Player>,
}

impl PlayerService {
    pub closed spec fn players(&self) -> Seq<Player> {
        self.online_players@
    }

    pub open spec fn wf(&self) -> bool {
        players_unique(self.players())
    }

    pub open spec fn has(&self, id: u32) -> bool {
        exists|i: int| 0 <= i < self.players().len() && (#[trigger] self.players()[i]).id == id
    }

    /// The registered player with this id (meaningful only under `has`).
    pub open spec fn player_of(&self, id: u32) -> Player {
        self.players()[choose|i: int|
            0 <= i < self.players().len() && (#[trigger] self.players()[i]).id == id]
    }

    /// Under uniqueness, any slot holding `id` is the registered player.
    pub proof fn lemma_player_of_index(&self, i: int, id: u32)
        requires
            self.wf(),
            0 <= i < self.players().len(),
            self.players()[i].id == id,
        ensures
            self.has(id),
            self.player_of(id) == self.players()[i],
    {
        assert(self.has(id));
        let j = choose|j: int|
            0 <= j < self.players().len() && (#[trigger] self.players()[j]).id == id;
        if j != i {
            assert(self.players()[i].id != self.players()[j].id);
        }
    }

    pub fn new() -> (s: PlayerService)
        ensures
            s.wf(),
            s.players().len() == 0,
    {
        PlayerService { online_players: Vec::new() }
    }

    /// Index of the player with this id.
    fn index_of(&self, id: u32) -> (r: Option<usize>)
        ensures
            match r {
                Some(i) => i < self.players().len() && self.players()[i as int].id == id,
                None => !self.has(id),
            },
    {
        let n = self.online_players.len();
        let mut i: usize = 0;
        while i < n
            invariant
                n == self.players().len(),
                i <= n,
                forall|j: int| 0 <= j < i ==> (#[trigger] self.players()[j]).id != id,
            decreases n - i,
        {
            if self.online_players[i].id == id {
                return Some(i);
            }
            i = i + 1;
        }
        None
    }

    /// Registers a new player with the given heartbeat timestamp.
    pub fn add_player(&mut self, client_id: u32, name: String, now: u64)
        requires
            old(self).wf(),
            !old(self).has(client_id),
        ensures
            final(self).wf(),
            final(self).players() == old(self).players().push(
                Player { id: client_id, name, lobby: None, game: None, last_heartbeat: now },
            ),
            final(self).has(client_id),
    {
        let mut p = Player::new(client_id, name);
        p.last_heartbeat = now;
        self.online_players.push(p);
        proof {
            let ps = self.players();
            assert(ps[ps.len() - 1].id == client_id);
        }
    }

    /// A copy of the registered player, if any.
    pub fn get_player(&self, client_id: u32) -> (r: Option<Player>)
        requires
            self.wf(),
        ensures
            match r {
                Some(p) => self.has(client_id) && p.id == client_id && exists|i: int|
                    0 <= i < self.players().len() && (#[trigger] self.players()[i]).id == client_id
                        && p.name@ == self.players()[i].name@ && p.lobby == self.players()[i].lobby
                        && p.game == self.players()[i].game,
                None => !self.has(client_id),
            },
    {
        match self.index_of(client_id) {
            Some(i) => Some(self.online_players[i].clone()),
            None => None,
        }
    }

    /// Ids and names of everyone online.
    pub fn get_players(&self) -> (r: Vec<PlayerInfo>)
        ensures
            r@.len() == self.players().len(),
            forall|i: int|
                0 <= i < r@.len() ==> (#[trigger] r@[i]).id == self.players()[i].id && r@[i].name@
                    == self.players()[i].name@,
    {
        let n = self.online_players.len();
        let mut r: Vec<PlayerInfo> = Vec::new();
        let mut i: usize = 0;
        while i < n
            invariant
                n == self.players().len(),
                i <= n,
                r@.len() == i,
                forall|j: int|
                    0 <= j < i ==> (#[trigger] r@[j]).id == self.players()[j].id && r@[j].name@
                        == self.players()[j].name@,
            decreases n - i,
        {
            let p = &self.online_players[i];
            r.push(PlayerInfo { id: p.id, name: p.name.clone() });
            i = i + 1;
        }
        r
    }

    /// Refreshes a player's heartbeat timestamp.
    pub fn heartbeat(&mut self, client_id: u32, now: u64) -> (r: Result<(), GameError>)
        requires
            old(self).wf(),
        ensures
            final(self).wf(),
            match r {
                Ok(()) => old(self).has(client_id) && exists|i: int|
                    0 <= i < old(self).players().len() && (#[trigger] old(self).players()[i]).id
                        == client_id && final(self).players() == old(self).players().update(
                        i,
                        Player { last_heartbeat: now, ..old(self).players()[i] },
                    ),
                Err(e) => e == GameError::PlayerNotFound && !old(self).has(client_id)
                    && final(self).players() == old(self).players(),
            },
    {
        match self.index_of(client_id) {
            Some(i) => {
                let mut p = self.online_players.remove(i);
                p.last_heartbeat = now;
                self.online_players.insert(i, p);
                proof {
                    assert(self.players() =~= old(self).players().update(
                        i as int,
                        Player { last_heartbeat: now, ..old(self).players()[i as int] },
                    ));
                    assert forall|a: int, b: int|
                        0 <= a < b < self.players().len() implies (
                        #[trigger] self.players()[a]).id != (#[trigger] self.players()[b]).id by {
                        assert(old(self).players()[a].id != old(self).players()[b].id);
                    }
                }
                Ok(())
            },
            None => Err(GameError::PlayerNotFound),
        }
    }

    /// Records which lobby a player is in: that player's entry takes the
    /// new reference, every other entry keeps its value.
    pub fn set_player_lobby(&mut self, client_id: u32, lobby: Option<u32>)
        requires
            old(self).wf(),
        ensures
            final(self).wf(),
            final(self).players().len() == old(self).players().len(),
            forall|k: int|
                0 <= k < old(self).players().len() ==> #[trigger] final(self).players()[k] == (
                if old(self).players()[k].id == client_id {
                    Player { lobby, ..old(self).players()[k] }
                } else {
                    old(self).players()[k]
                }),
    {
        match self.index_of(client_id) {
            Some(i) => {
                let mut p = self.online_players.remove(i);
                p.lobby = lobby;
                self.online_players.insert(i, p);
                proof {
                    assert(self.players() =~= old(self).players().update(
                        i as int,
                        Player { lobby, ..old(self).players()[i as int] },
                    ));
                    assert forall|a: int, b: int|
                        0 <= a < b < self.players().len() implies (
                        #[trigger] self.players()[a]).id != (#[trigger] self.players()[b]).id by {
                        assert(old(self).players()[a].id != old(self).players()[b].id);
                    }
                }
            },
            None => {},
        }
    }

    /// Records which game a player is in: that player's entry takes the
    /// new reference, every other entry keeps its value.
    pub fn set_player_game(&mut self, client_id: u32, game: Option<u32>)
        requires
            old(self).wf(),
        ensures
            final(self).wf(),
            final(self).players().len() == old(self).players().len(),
            forall|k: int|
                0 <= k < old(self).players().len() ==> #[trigger] final(self).players()[k] == (
                if old(self).players()[k].id == client_id {
                    Player { game, ..old(self).players()[k] }
                } else {
                    old(self).players()[k]
                }),
    {
        match self.index_of(client_id) {
            Some(i) => {
                let mut p = self.online_players.remove(i);
                p.game = game;
                self.online_players.insert(i, p);
                proof {
                    assert(self.players() =~= old(self).players().update(
                        i as int,
                        Player { game, ..old(self).players()[i as int] },
                    ));
                    assert forall|a: int, b: int|
                        0 <= a < b < self.players().len() implies (
                        #[trigger] self.players()[a]).id != (#[trigger] self.players()[b]).id by {
                        assert(old(self).players()[a].id != old(self).players()[b].id);
                    }
                }
            },
            None => {},
        }
    }

    /// Deregisters a player, handing the record back.
    pub fn remove_player_entry(&mut self, client_id: u32) -> (r: Option<Player>)
        requires
            old(self).wf(),
        ensures
            final(self).wf(),
            match r {
                Some(p) => exists|i: int|
                    0 <= i < old(self).players().len() && p == old(self).players()[i] && p.id
                        == client_id && final(self).players() == old(self).players().remove(i),
                None => !old(self).has(client_id) && final(self).players() == old(self).players(),
            },
            !final(self).has(client_id),
    {
        match self.index_of(client_id) {
            Some(i) => {
                let p = self.online_players.remove(i);
                proof {
                    assert forall|a: int, b: int|
                        0 <= a < b < self.players().len() implies (
                        #[trigger] self.players()[a]).id != (#[trigger] self.players()[b]).id by {
                        let a0 = if a < i as int { a } else { a + 1 };
                        let b0 = if b < i as int { b } else { b + 1 };
                        assert(old(self).players()[a0].id != old(self).players()[b0].id);
                    }
                    assert forall|a: int| 0 <= a < self.players().len() implies (
                    #[trigger] self.players()[a]).id != client_id by {
                        let a0 = if a < i as int { a } else { a + 1 };
                        assert(self.players()[a] == old(self).players()[a0]);
                        if a0 != i as int {
                            assert(old(self).players()[a0].id != old(self).players()[
                                i as int].id);
                        }
                    }
                }
                Some(p)
            },
            None => None,
        }
    }

    /// The ids whose last heartbeat is older than `threshold`
    /// milliseconds at time `now`: the prefix the idle sweep evicts.
    pub fn idle_players(&self, now: u64, threshold: u64) -> (r: Vec<u32>)
        requires
            self.wf(),
        ensures
            forall|k: int|
                0 <= k < r@.len() ==> expired_entry(self.players(), #[trigger] r@[k], now, threshold),
            forall|i: int|
                0 <= i < self.players().len() && (#[trigger] self.players()[i]).last_heartbeat
                    + threshold < now ==> r@.contains(self.players()[i].id),
    {
        let n = self.online_players.len();
        let mut r: Vec<u32> = Vec::new();
        let ghost mut idxs: Seq<int> = Seq::empty();
        let mut i: usize = 0;
        while i < n
            invariant
                n == self.players().len(),
                i <= n,
                idxs.len() == r@.len(),
                forall|k: int|
                    0 <= k < r@.len() ==> 0 <= #[trigger] idxs[k] < self.players().len()
                        && self.players()[idxs[k]].id == r@[k] && self.players()[
                        idxs[k]].last_heartbeat + threshold < now,
                forall|j: int|
                    0 <= j < i && (#[trigger] self.players()[j]).last_heartbeat + threshold < now
                        ==> r@.contains(self.players()[j].id),
            decreases n - i,
        {
            let p = &self.online_players[i];
            if threshold < u64::MAX - p.last_heartbeat && p.last_heartbeat + threshold < now {
                let ghost r0 = r@;
                r.push(p.id);
                proof {
                    idxs = idxs.push(i as int);
                    assert(r@[r0.len() as int] == self.players()[i as int].id);
                    assert forall|j: int|
                        0 <= j < i + 1 && (#[trigger] self.players()[j]).last_heartbeat + threshold
                            < now implies r@.contains(self.players()[j].id) by {
                        if j < i as int {
                            let k = choose|k: int|
                                0 <= k < r0.len() && r0[k] == self.players()[j].id;
                            assert(r@[k] == self.players()[j].id);
                        } else {
                            assert(r@[r0.len() as int] == self.players()[j].id);
                        }
                    }
                }
            }
            i = i + 1;
        }
        proof {
            assert forall|k: int| 0 <= k < r@.len() implies expired_entry(
                self.players(),
                #[trigger] r@[k],
                now,
                threshold,
            ) by {
                let j = idxs[k];
                assert(0 <= j < self.players().len() && (#[trigger] self.players()[j]).id == r@[k]
                    && self.players()[j].last_heartbeat + threshold < now);
            }
        }
        r
    }
}


impl PlayerService {
    /// The full disconnect cascade: the player leaves their lobby (which
    /// may destroy it) and their game (which may destroy that), then the
    /// session entry itself is dropped.
    pub fn remove_player(
        players: &mut PlayerService,
        lobbies: &mut crate::lobby::LobbyService,
        games: &mut GameService,
        player_id: u32,
        outbox: &mut Vec<Broadcast>,
    ) -> (r: Result<Player, GameError>)
        requires
            old(players).wf(),
            old(lobbies).wf(),
            old(games).wf(),
        ensures
            final(players).wf(),
            final(lobbies).wf(),
            final(games).wf(),
            r is Ok <==> old(players).has(player_id),
            match r {
                Ok(p) => {
                    let lid = old(players).player_of(player_id).lobby->Some_0;
                    let gid = old(players).player_of(player_id).game->Some_0;
                    let l0 = crate::lobby::lobby_of(old(lobbies).spec_lobbies(), lid);
                    let g0 = crate::game_service::game_of(old(games).spec_games(), gid);
                    &&& p.id == player_id
                    &&& !final(players).has(player_id)
                    // the leader's leaving destroys their lobby …
                    &&& (old(players).player_of(player_id).lobby is Some
                        && crate::lobby::lobbies_has(old(lobbies).spec_lobbies(), lid)
                        && crate::lobby::roster_has(l0.roster(), player_id) && player_id
                        == l0.spec_leader() ==> !crate::lobby::lobbies_has(
                        final(lobbies).spec_lobbies(),
                        lid,
                    ))
                    // … and anyone else's leaving only shrinks its roster
                    &&& (old(players).player_of(player_id).lobby is Some
                        && crate::lobby::lobbies_has(old(lobbies).spec_lobbies(), lid)
                        && crate::lobby::roster_has(l0.roster(), player_id) && player_id
                        != l0.spec_leader() ==> crate::lobby::lobbies_has(
                        final(lobbies).spec_lobbies(),
                        lid,
                    ) && !crate::lobby::roster_has(
                        crate::lobby::lobby_of(final(lobbies).spec_lobbies(), lid).roster(),
                        player_id,
                    ))
                    // the player is out of their game's rotation (or the game is gone)
                    &&& (old(players).player_of(player_id).game is Some
                        && crate::game_service::games_has(old(games).spec_games(), gid)
                        && crate::game::queue_has(g0.spec_queue(), player_id)
                        ==> (crate::game_service::games_has(final(games).spec_games(), gid)
                        ==> !crate::game::queue_has(
                        crate::game_service::game_of(
                            final(games).spec_games(),
                            gid,
                        ).spec_queue(),
                        player_id,
                    )))
                },
                Err(e) => e == GameError::PlayerNotFound,
            },
            !old(players).has(player_id) ==> final(players).players() == old(players).players()
                && final(lobbies).spec_lobbies() == old(lobbies).spec_lobbies() && final(games).spec_games() == old(games).spec_games() && final(outbox)@ == old(outbox)@,
    {
        let p = match players.get_player(player_id) {
            Some(p) => p,
            None => {
                return Err(GameError::PlayerNotFound);
            },
        };
        proof {
            let i = choose|i: int|
                0 <= i < players.players().len() && (#[trigger] players.players()[i]).id
                    == player_id && p.name@ == players.players()[i].name@ && p.lobby
                    == players.players()[i].lobby && p.game == players.players()[i].game;
            players.lemma_player_of_index(i, player_id);
            assert(old(players).player_of(player_id).lobby == p.lobby);
            assert(old(players).player_of(player_id).game == p.game);
        }
        let ghost lid = old(players).player_of(player_id).lobby->Some_0;
        let ghost gid = old(players).player_of(player_id).game->Some_0;
        let ghost l0 = crate::lobby::lobby_of(old(lobbies).spec_lobbies(), lid);
        let ghost g0 = crate::game_service::game_of(old(games).spec_games(), gid);
        let ghost lobby_work = p.lobby is Some && crate::lobby::lobbies_has(
            old(lobbies).spec_lobbies(),
            lid,
        ) && crate::lobby::roster_has(l0.roster(), player_id);
        if p.lobby.is_some() {
            let lres = lobbies.remove_player_from_lobby(players, player_id, outbox);
            proof {
                if lobby_work {
                    // no refusal condition holds, so the leave went through
                    assert(lres is Ok);
                    let lp = lres->Ok_0;
                    let li = choose|li: int, j: int|
                        #![trigger old(lobbies).spec_lobbies()[li].roster()[j]]
                        {
                            let lobby = old(lobbies).spec_lobbies()[li];
                            &&& 0 <= li < old(lobbies).spec_lobbies().len()
                            &&& lobby.spec_id() == lid
                            &&& 0 <= j < lobby.roster().len()
                            &&& lobby.roster()[j] == lp
                            &&& (if player_id == lobby.spec_leader() {
                                &&& lobbies.spec_lobbies() == old(lobbies).spec_lobbies().remove(
                                    li,
                                )
                                &&& crate::lobby::lobby_event_broadcast(
                                    outbox@.last(),
                                    crate::lobby::roster_ids(lobby.roster().remove(j)),
                                    crate::messages::LobbyEvent::Destroy,
                                )
                            } else {
                                &&& lobbies.spec_lobbies() == old(lobbies).spec_lobbies().update(
                                    li,
                                    lobbies.spec_lobbies()[li],
                                )
                                &&& lobbies.spec_lobbies()[li].roster() == lobby.roster().remove(
                                    j,
                                )
                                &&& lobbies.spec_lobbies()[li].spec_id() == lobby.spec_id()
                                &&& lobbies.spec_lobbies()[li].spec_leader()
                                    == lobby.spec_leader()
                            })
                        };
                    let (wi, wj) = li;
                    crate::lobby::lemma_lobby_of_index(old(lobbies).spec_lobbies(), wi, lid);
                    assert(old(lobbies).spec_lobbies()[wi] == l0);
                    if player_id == l0.spec_leader() {
                        assert forall|a: int|
                            0 <= a < lobbies.spec_lobbies().len() implies (
                        #[trigger] lobbies.spec_lobbies()[a]).spec_id() != lid by {
                            let a0 = if a < wi { a } else { a + 1 };
                            assert(lobbies.spec_lobbies()[a] == old(lobbies).spec_lobbies()[a0]);
                            if a0 != wi {
                                assert(old(lobbies).spec_lobbies()[a0].spec_id() != old(lobbies).spec_lobbies()[wi].spec_id());
                            }
                        }
                    } else {
                        assert(l0.roster()[wj].player_id == player_id);
                        crate::lobby::lemma_lobby_of_index(
                            lobbies.spec_lobbies(),
                            wi,
                            lid,
                        );
                        assert forall|a: int|
                            0 <= a < lobbies.spec_lobbies()[wi].roster().len() implies (
                        #[trigger] lobbies.spec_lobbies()[wi].roster()[a]).player_id
                            != player_id by {
                            let a0 = if a < wj { a } else { a + 1 };
                            assert(lobbies.spec_lobbies()[wi].roster()[a] == l0.roster()[a0]);
                            if a0 != wj {
                                assert(l0.roster()[a0].player_id != l0.roster()[wj].player_id);
                            }
                        }
                    }
                }
            }
        }
        let ghost players_mid = *players;
        if p.game.is_some() {
            let gres = games.remove_player_from_game(players, player_id, outbox);
            proof {
                if crate::game_service::games_has(old(games).spec_games(), gid)
                    && crate::game::queue_has(g0.spec_queue(), player_id) {
                    assert(players_mid.has(player_id));
                    assert(players_mid.player_of(player_id).game == p.game);
                    assert(gres is Ok);
                    let gi = crate::game_service::game_index_of(old(games).spec_games(), gid);
                    let qi = crate::game::queue_index_of(g0.spec_queue(), player_id);
                    assert(0 <= gi < old(games).spec_games().len() && old(games).spec_games()[
                        gi].spec_id() == gid);
                    assert(old(games).spec_games()[gi] == g0);
                    assert(g0.wf());
                    if g0.spec_queue().len() == 1 {
                        assert(games.spec_games() == old(games).spec_games().remove(gi));
                        assert forall|a: int|
                            0 <= a < games.spec_games().len() implies (
                        #[trigger] games.spec_games()[a]).spec_id() != gid by {
                            let a0 = if a < gi { a } else { a + 1 };
                            assert(games.spec_games()[a] == old(games).spec_games()[a0]);
                            if a0 != gi {
                                assert(old(games).spec_games()[a0].spec_id() != old(games).spec_games()[gi].spec_id());
                            }
                        }
                    } else {
                        assert(games.spec_games()[gi].spec_id() == gid);
                        assert(games.spec_games()[gi].spec_queue() == g0.spec_queue().remove(
                            qi,
                        ));
                        let j2 = crate::game_service::game_index_of(games.spec_games(), gid);
                        assert(0 <= j2 < games.spec_games().len() && games.spec_games()[
                            j2].spec_id() == gid);
                        assert(j2 == gi) by {
                            if j2 != gi {
                                assert(games.spec_games()[j2].spec_id() == old(games).spec_games()[j2].spec_id());
                                assert(old(games).spec_games()[j2].spec_id() != old(games).spec_games()[gi].spec_id());
                            }
                        }
                        assert(0 <= qi < g0.spec_queue().len() && g0.spec_queue()[qi].player_id
                            == player_id);
                        assert forall|a: int|
                            0 <= a < games.spec_games()[gi].spec_queue().len() implies (
                        #[trigger] games.spec_games()[gi].spec_queue()[a]).player_id
                            != player_id by {
                            let a0 = if a < qi { a } else { a + 1 };
                            assert(games.spec_games()[gi].spec_queue()[a] == g0.spec_queue()[
                                a0]);
                            if a0 != qi {
                                assert(g0.spec_queue()[a0].player_id != g0.spec_queue()[
                                    qi].player_id);
                            }
                        }
                    }
                }
            }
        }
        match players.remove_player_entry(player_id) {
            Some(removed) => Ok(removed),
            None => Err(GameError::PlayerNotFound),
        }
    }

    /// Frees everything a disconnected client id held.
    pub fn clean_client_resources(
        players: &mut PlayerService,
        lobbies: &mut crate::lobby::LobbyService,
        games: &mut GameService,
        client_id: u32,
        outbox: &mut Vec<Broadcast>,
    ) -> (r: Result<(), GameError>)
        requires
            old(players).wf(),
            old(lobbies).wf(),
            old(games).wf(),
        ensures
            final(players).wf(),
            final(lobbies).wf(),
            final(games).wf(),
            r is Ok <==> old(players).has(client_id),
            r is Ok ==> !final(players).has(client_id),
            r matches Err(e) ==> e == GameError::PlayerNotFound && final(players).players()
                == old(players).players(),
    {
        match PlayerService::remove_player(players, lobbies, games, client_id, outbox) {
            Ok(_) => Ok(()),
            Err(e) => Err(e),
        }
    }
}

} // verus!
