//! The match registry and the turn orchestration: starting a game from a
//! ready lobby, placements and cancellations, shuffles, and the two
//! finish paths — explicit and timeout-forced — that race for the one
//! timer slot.

use vstd::prelude::*;

use crate::board::{spec_validate, Board, Tile};
use crate::cards::{fresh_hand, Card};
use crate::game::{queue_ids, Game, GamePlayer, END_GAME_TURN};
use crate::lobby::{roster_all_ready, roster_ids, Lobby};
use crate::messages::{
    Broadcast, GameBroadcast, GameError, GameEvent, LobbyBroadcast, LobbyEvent, PlayerInfo,
    ResponseData,
};
use crate::player::PlayerService;
use crate::words::WordSet;

verus! {

/// A match with this id is registered.
pub open spec fn games_has(gs: Seq<Game>, id: u32) -> bool {
    exists|i: int| 0 <= i < gs.len() && (#[trigger] gs[i]).spec_id() == id
}

/// The ids of `ids` other than `pid`, in order: the audience of the
/// start notifications.
pub open spec fn others_in(ids: Seq<u32>, pid: u32) -> Seq<u32>
    decreases ids.len(),
{
    if ids.len() == 0 {
        Seq::empty()
    } else {
        others_in(ids.drop_last(), pid) + (if ids.last() == pid {
            Seq::empty()
        } else {
            seq![ids.last()]
        })
    }
}

/// A start notification for one member: addressed to them alone, the
/// `Start` event, their own fresh hand, and the first turn's holder.
pub open spec fn start_broadcast_for(bc: Broadcast, g: Game, pid: u32) -> bool {
    &&& bc.targets@ == seq![pid]
    &&& bc.data matches ResponseData::LobbyBroadcast(lb) && lb.event == LobbyEvent::Start && (
    lb.cards matches Some(cs) && cs@ == crate::game::queue_player(g.spec_queue(), pid).cards@)
        && (lb.current_player matches Some(ci) && g.spec_queue().len() > 0 && ci.id
        == g.spec_queue()[0].player_id)
}

/// A board-update notification: the `PlaceTile` event carrying the
/// changed board, addressed only to players other than the turn holder.
pub open spec fn placetile_broadcast(bc: Broadcast, g: Game) -> bool {
    &&& bc.data matches ResponseData::GameBroadcast(gb) && gb.event == GameEvent::PlaceTile && (
    gb.board matches Some(b) && b.grid() == g.spec_board().grid())
    &&& forall|k: int|
        0 <= k < bc.targets@.len() ==> queue_ids(g.spec_queue()).contains(#[trigger] bc.targets@[k])
            && (g.spec_queue().len() > 0 ==> bc.targets@[k] != g.spec_queue()[0].player_id)
}

/// If this player is registered, their game reference reads `g`.
pub open spec fn game_ref_is(players: PlayerService, pid: u32, g: Option<u32>) -> bool {
    players.has(pid) ==> players.player_of(pid).game == g
}

/// What an accepted finish leaves behind, next to the words it scored:
/// whether the game ended, and the token of the freshly armed timer when
/// it did not.
#[derive(Debug)]
pub struct FinishOutcome {
    pub words: Vec<String>,
    pub game_ended: bool,
    pub timer_token: Option<u64>,
}

/// What a successful start hands back: the new game's id, its roster in
/// turn order, and the token of the first turn's timer.
#[derive(Debug)]
pub struct StartOutcome {
    pub game_id: u32,
    pub timer_token: u64,
}

/// What a start did: the new match is registered under the next fresh
/// id at turn one, its rotation is the lobby roster in joining order
/// with the first timer armed on an empty board, every member's game
/// reference points at it, and each non-initiating member was sent a
/// `Start` notification with their own hand and the first turn's holder.
pub open spec fn game_started(
    games_pre: GameService,
    games_post: GameService,
    players_post: PlayerService,
    outbox_pre: Seq<Broadcast>,
    outbox_post: Seq<Broadcast>,
    lobby: Lobby,
    player_id: u32,
    out: StartOutcome,
) -> bool {
    &&& out.game_id == games_pre.spec_next_id()
    &&& games_post.spec_next_id() == games_pre.spec_next_id() + 1
    &&& games_post.spec_games() == games_pre.spec_games().push(games_post.spec_games().last())
    &&& games_post.spec_games().last().spec_id() == out.game_id
    &&& games_post.spec_games().last().spec_turn() == 1
    &&& queue_ids(games_post.spec_games().last().spec_queue()) == roster_ids(lobby.roster())
    &&& games_post.spec_games().last().spec_timer() == Some(out.timer_token)
    &&& games_post.spec_games().last().spec_board().is_empty_board()
    &&& forall|j: int|
        0 <= j < lobby.roster().len() ==> game_ref_is(
            players_post,
            #[trigger] roster_ids(lobby.roster())[j],
            Some(out.game_id),
        )
    &&& outbox_post.len() == outbox_pre.len() + others_in(
        roster_ids(lobby.roster()),
        player_id,
    ).len()
    &&& outbox_post.subrange(0, outbox_pre.len() as int) == outbox_pre
    &&& forall|j: int|
        0 <= j < others_in(roster_ids(lobby.roster()), player_id).len() ==> start_broadcast_for(
            #[trigger] outbox_post[outbox_pre.len() + j],
            games_post.spec_games().last(),
            others_in(roster_ids(lobby.roster()), player_id)[j],
        )
}

/// The registry of running matches and the one immutable dictionary.
#[derive(Debug)]
pub struct GameService {
    next_game_id: u32,
    games: Vec<Game>,
    wordlist: WordSet,
}

impl GameService {
    pub closed spec fn spec_games(&self) -> Seq<Game> {
        self.games@
    }

    pub closed spec fn spec_next_id(&self) -> u32 {
        self.next_game_id
    }

    pub closed spec fn dict(&self) -> Set<Seq<char>> {
        self.wordlist@
    }

    pub open spec fn wf(&self) -> bool {
        &&& forall|i: int, j: int|
            0 <= i < j < self.spec_games().len() ==> (#[trigger] self.spec_games()[i]).spec_id()
                != (#[trigger] self.spec_games()[j]).spec_id()
        &&& forall|i: int| 0 <= i < self.spec_games().len() ==> (#[trigger] self.spec_games()[
            i]).wf()
        &&& forall|i: int| 0 <= i < self.spec_games().len() ==> (#[trigger] self.spec_games()[
            i]).spec_id() < self.spec_next_id()
    }

    /// A new registry around the dictionary loaded at startup.
    pub fn new(wordlist: WordSet) -> (s: GameService)
        ensures
            s.wf(),
            s.spec_games().len() == 0,
            s.spec_next_id() == 0,
            s.dict() == wordlist@,
    {
        GameService { next_game_id: 0, games: Vec::new(), wordlist }
    }

    /// The id the next match would take.
    pub fn next_id(&self) -> (i: u32)
        ensures
            i == self.spec_next_id(),
    {
        self.next_game_id
    }

    /// Index of the match with this id.
    fn index_of(&self, id: u32) -> (r: Option<usize>)
        ensures
            match r {
                Some(i) => i < self.spec_games().len() && self.spec_games()[i as int].spec_id()
                    == id,
                None => !games_has(self.spec_games(), id),
            },
    {
        let n = self.games.len();
        let mut i: usize = 0;
        while i < n
            invariant
                n == self.spec_games().len(),
                i <= n,
                forall|j: int| 0 <= j < i ==> (#[trigger] self.spec_games()[j]).spec_id() != id,
            decreases n - i,
        {
            if self.games[i].get_id() == id {
                return Some(i);
            }
            i = i + 1;
        }
        None
    }

    /// A borrowed view of a match.
    pub fn get_game(&self, id: u32) -> (r: Option<&Game>)
        ensures
            match r {
                Some(g) => g.spec_id() == id && exists|i: int|
                    0 <= i < self.spec_games().len() && *g == (#[trigger] self.spec_games()[i]),
                None => !games_has(self.spec_games(), id),
            },
    {
        match self.index_of(id) {
            Some(i) => Some(&self.games[i]),
            None => None,
        }
    }

    /// The ids of every running match.
    pub fn get_gamees(&self) -> (r: Vec<u32>)
        ensures
            r@.len() == self.spec_games().len(),
            forall|i: int| 0 <= i < r@.len() ==> #[trigger] r@[i] == self.spec_games()[i].spec_id(),
    {
        let n = self.games.len();
        let mut r: Vec<u32> = Vec::new();
        let mut i: usize = 0;
        while i < n
            invariant
                n == self.spec_games().len(),
                i <= n,
                r@.len() == i,
                forall|j: int| 0 <= j < i ==> #[trigger] r@[j] == self.spec_games()[j].spec_id(),
            decreases n - i,
        {
            r.push(self.games[i].get_id());
            i = i + 1;
        }
        r
    }

    /// Starts a match from a lobby: only the leader may, and only once
    /// every member is ready. The roster becomes the turn queue in
    /// joining order, each member draws a hand, the first turn's timer
    /// is armed, and the other members are told the game began.
    pub fn start_game(
        &mut self,
        players: &mut PlayerService,
        lobby: &Lobby,
        player_id: u32,
        outbox: &mut Vec<Broadcast>,
    ) -> (r: Result<StartOutcome, GameError>)
        requires
            old(self).wf(),
            old(players).wf(),
            lobby.wf(),
            lobby.roster().len() >= 1,
            old(self).spec_next_id() < u32::MAX,
        ensures
            final(self).wf(),
            final(players).wf(),
            match r {
                Ok(out) => {
                    &&& player_id == lobby.spec_leader()
                    &&& roster_all_ready(lobby.roster())
                    &&& game_started(
                        *old(self),
                        *final(self),
                        *final(players),
                        old(outbox)@,
                        final(outbox)@,
                        *lobby,
                        player_id,
                        out,
                    )
                },
                Err(e) => {
                    &&& final(self).spec_games() == old(self).spec_games()
                    &&& final(players).players() == old(players).players()
                    &&& final(outbox)@ == old(outbox)@
                    &&& (e == GameError::OnlyLeaderCanStart || e == GameError::NotAllPlayersReady)
                    &&& (e == GameError::OnlyLeaderCanStart <==> player_id != lobby.spec_leader())
                    &&& (e == GameError::NotAllPlayersReady <==> (player_id == lobby.spec_leader()
                        && !roster_all_ready(lobby.roster())))
                },
            },
    {
        if player_id != lobby.get_leader() {
            return Err(GameError::OnlyLeaderCanStart);
        }
        let roster = lobby.get_players();
        let n = roster.len();
        let mut k: usize = 0;
        while k < n
            invariant
                n == lobby.roster().len(),
                k <= n,
                roster@ == lobby.roster(),
                forall|j: int| 0 <= j < k ==> (#[trigger] lobby.roster()[j]).ready,
                *self == *old(self),
                *players == *old(players),
                outbox@ == old(outbox)@,
                old(self).wf(),
                old(players).wf(),
                player_id == lobby.spec_leader(),
            decreases n - k,
        {
            if !roster[k].get_ready() {
                return Err(GameError::NotAllPlayersReady);
            }
            k = k + 1;
        }
        let mut ids: Vec<u32> = Vec::new();
        let mut k: usize = 0;
        while k < n
            invariant
                n == lobby.roster().len(),
                lobby.wf(),
                k <= n,
                roster@ == lobby.roster(),
                ids@.len() == k,
                forall|j: int| 0 <= j < k ==> #[trigger] ids@[j] == lobby.roster()[j].player_id,
            decreases n - k,
        {
            ids.push(roster[k].player_id);
            k = k + 1;
        }
        proof {
            assert(ids@ =~= roster_ids(lobby.roster()));
            assert forall|a: int, b: int| 0 <= a < b < ids@.len() implies ids@[a] != ids@[b] by {
                assert(lobby.roster()[a].player_id != lobby.roster()[b].player_id);
            }
        }
        let game_id = self.next_game_id;
        let mut game = Game::new(game_id, &ids);
        let timer_token = game.arm_timer();
        // hand each joining member their cards and the first turn holder
        let mut k: usize = 0;
        while k < n
            invariant
                n == lobby.roster().len(),
                lobby.wf(),
                k <= n,
                roster@ == lobby.roster(),
                ids@ == roster_ids(lobby.roster()),
                game.wf(),
                game.spec_id() == game_id,
                game.spec_turn() == 1,
                queue_ids(game.spec_queue()) == ids@,
                game.spec_queue().len() == n,
                game.spec_timer() == Some(timer_token),
                game.spec_board().is_empty_board(),
                old(players).wf() ==> players.wf(),
                players.wf(),
                forall|j: int|
                    0 <= j < k ==> game_ref_is(*players, #[trigger] ids@[j], Some(game_id)),
                outbox@.len() == old(outbox)@.len() + others_in(ids@.take(k as int), player_id).len(),
                outbox@.subrange(0, old(outbox)@.len() as int) == old(outbox)@,
                forall|j: int|
                    0 <= j < others_in(ids@.take(k as int), player_id).len()
                        ==> start_broadcast_for(
                        #[trigger] outbox@[old(outbox)@.len() + j],
                        game,
                        others_in(ids@.take(k as int), player_id)[j],
                    ),
            decreases n - k,
        {
            proof {
                assert(others_in(ids@.take(0), player_id) =~= Seq::<u32>::empty());
            }
            let pid = ids[k];
            let ghost pre = *players;
            let ghost outbox0 = outbox@;
            let ghost others0 = others_in(ids@.take(k as int), player_id);
            players.set_player_game(pid, Some(game_id));
            proof {
                assert forall|j: int| 0 <= j < k + 1 implies game_ref_is(
                    *players,
                    #[trigger] ids@[j],
                    Some(game_id),
                ) by {
                    let id = ids@[j];
                    if players.has(id) {
                        let m = choose|m: int|
                            0 <= m < players.players().len() && (
                            #[trigger] players.players()[m]).id == id;
                        if pre.players()[m].id == ids@[k as int] {
                            players.lemma_player_of_index(m, id);
                        } else {
                            pre.lemma_player_of_index(m, id);
                            players.lemma_player_of_index(m, id);
                            if j == k {
                                assert(false);
                            }
                        }
                    }
                }
            }
            if pid != player_id {
                let ghost qi = k as int;
                proof {
                    assert(queue_ids(game.spec_queue())[qi] == pid);
                    crate::game::lemma_queue_player_at(game.spec_queue(), qi, pid);
                }
                let gp = game.player_at(k);
                let cards = gp.get_cards();
                let holder = game.get_player_in_this_turn();
                let holder_info = PlayerInfo { id: holder.player_id, name: String::new() };
                let next_info = match game.get_next_turn_player() {
                    Some(np) => Some(PlayerInfo { id: np.player_id, name: String::new() }),
                    None => None,
                };
                let mut targets: Vec<u32> = Vec::new();
                targets.push(pid);
                proof {
                    assert(targets@ =~= seq![pid]);
                }
                outbox.push(
                    Broadcast {
                        targets,
                        data: ResponseData::LobbyBroadcast(
                            LobbyBroadcast {
                                event: LobbyEvent::Start,
                                lobby: None,
                                cards: Some(cards),
                                current_player: Some(holder_info),
                                next_player: next_info,
                            },
                        ),
                    },
                );
                proof {
                    assert(start_broadcast_for(outbox@.last(), game, pid));
                }
            }
            proof {
                assert(ids@.take(k + 1).drop_last() =~= ids@.take(k as int));
                assert(ids@.take(k + 1).last() == ids@[k as int]);
                let others1 = others_in(ids@.take(k + 1), player_id);
                if ids@[k as int] == player_id {
                    assert(others1 =~= others0);
                    assert(outbox@ == outbox0);
                } else {
                    assert(others1 =~= others0 + seq![ids@[k as int]]);
                }
                assert(outbox@.subrange(0, old(outbox)@.len() as int) =~= old(outbox)@);
                assert forall|j: int|
                    0 <= j < others_in(ids@.take(k + 1), player_id).len() implies start_broadcast_for(
                    #[trigger] outbox@[old(outbox)@.len() + j],
                    game,
                    others_in(ids@.take(k + 1), player_id)[j],
                ) by {
                    let others1 = others_in(ids@.take(k + 1), player_id);
                    if j < others0.len() {
                        assert(others1[j] == others0[j]);
                        assert(outbox@[old(outbox)@.len() + j] == outbox0[old(outbox)@.len() + j]);
                    } else {
                        assert(others1[j] == ids@[k as int]);
                        assert(outbox@[old(outbox)@.len() + j] == outbox@.last());
                    }
                }
            }
            k = k + 1;
        }
        self.games.push(game);
        self.next_game_id = game_id + 1;
        proof {
            assert(ids@.take(n as int) =~= ids@);
            assert(final(self).spec_games() =~= old(self).spec_games().push(
                final(self).spec_games().last(),
            ));
            assert(final(self).spec_games().last() == game);
        }
        Ok(StartOutcome { game_id, timer_token })
    }
}


/// The registered match with this id (meaningful when one exists).
pub open spec fn game_index_of(gs: Seq<Game>, id: u32) -> int {
    choose|i: int| 0 <= i < gs.len() && (#[trigger] gs[i]).spec_id() == id
}

/// The registered match with this id.
pub open spec fn game_of(gs: Seq<Game>, id: u32) -> Game {
    gs[game_index_of(gs, id)]
}

/// What a shuffle did. On success the caller's hand was discarded for a
/// fresh draw, the once-per-turn flag was spent, and the other players
/// were told; on failure nothing changed, and the error says exactly
/// why — in particular, a second shuffle in the same turn always fails
/// with `HasShuffled`.
pub open spec fn shuffle_transition(
    pre: GameService,
    post: GameService,
    outbox_pre: Seq<Broadcast>,
    outbox_post: Seq<Broadcast>,
    game_id: u32,
    player_id: u32,
    r: Result<Vec<Card>, GameError>,
) -> bool {
    match r {
        Ok(cards) => {
            let i = game_index_of(pre.spec_games(), game_id);
            let g0 = game_of(pre.spec_games(), game_id);
            let qi = crate::game::queue_index_of(g0.spec_queue(), player_id);
            let g1 = post.spec_games()[i];
            let gp1 = g1.spec_queue()[qi];
            &&& games_has(pre.spec_games(), game_id)
            &&& crate::game::queue_has(g0.spec_queue(), player_id)
            &&& !crate::game::queue_player(g0.spec_queue(), player_id).has_shuffled
            &&& post.spec_games() == pre.spec_games().update(i, g1)
            &&& g1.spec_queue() == g0.spec_queue().update(qi, gp1)
            &&& gp1.player_id == player_id
            &&& gp1.has_shuffled
            &&& fresh_hand(gp1.cards@)
            &&& cards@ == gp1.cards@
            &&& g1.spec_id() == g0.spec_id()
            &&& g1.spec_turn() == g0.spec_turn()
            &&& g1.spec_board() == g0.spec_board()
            &&& g1.spec_backup() == g0.spec_backup()
            &&& g1.spec_timer() == g0.spec_timer()
            &&& g1.spec_token_counter() == g0.spec_token_counter()
            &&& outbox_post == outbox_pre.push(outbox_post.last())
        },
        Err(e) => {
            let g0 = game_of(pre.spec_games(), game_id);
            &&& post.spec_games() == pre.spec_games()
            &&& post.spec_next_id() == pre.spec_next_id()
            &&& outbox_post == outbox_pre
            &&& (e == GameError::GameNotFound || e == GameError::PlayerNotFound || e
                == GameError::HasShuffled)
            &&& (e == GameError::GameNotFound <==> !games_has(pre.spec_games(), game_id))
            &&& (e == GameError::PlayerNotFound <==> (games_has(pre.spec_games(), game_id)
                && !crate::game::queue_has(g0.spec_queue(), player_id)))
            &&& (e == GameError::HasShuffled <==> (games_has(pre.spec_games(), game_id)
                && crate::game::queue_has(g0.spec_queue(), player_id) && crate::game::queue_player(
                g0.spec_queue(),
                player_id,
            ).has_shuffled))
        },
    }
}

impl GameService {
    /// Replaces the match at a slot.
    fn set_game_at(&mut self, i: usize, game: Game)
        requires
            i < old(self).spec_games().len(),
        ensures
            final(self).spec_games() == old(self).spec_games().update(i as int, game),
            final(self).spec_next_id() == old(self).spec_next_id(),
            final(self).dict() == old(self).dict(),
    {
        let _ = self.games.remove(i);
        self.games.insert(i, game);
        proof {
            assert(self.games@ =~= old(self).spec_games().update(i as int, game));
        }
    }

    /// Redraws the calling player's hand, once per turn. The other
    /// players only learn that a shuffle happened.
    pub fn shuffle(
        &mut self,
        game_id: u32,
        player_id: u32,
        outbox: &mut Vec<Broadcast>,
    ) -> (r: Result<Vec<Card>, GameError>)
        requires
            old(self).wf(),
        ensures
            final(self).wf(),
            final(self).spec_next_id() == old(self).spec_next_id(),
            shuffle_transition(
                *old(self),
                *final(self),
                old(outbox)@,
                final(outbox)@,
                game_id,
                player_id,
                r,
            ),
    {
        let gi = match self.index_of(game_id) {
            Some(i) => i,
            None => {
                return Err(GameError::GameNotFound);
            },
        };
        proof {
            let i2 = game_index_of(self.spec_games(), game_id);
            assert(0 <= i2 < self.spec_games().len() && self.spec_games()[i2].spec_id()
                == game_id);
            assert(i2 == gi as int);
        }
        let mut game = self.games.remove(gi);
        let qi = match game.find_player(player_id) {
            Some(qi) => qi,
            None => {
                self.games.insert(gi, game);
                proof {
                    assert(self.games@ =~= old(self).spec_games());
                }
                return Err(GameError::PlayerNotFound);
            },
        };
        proof {
            let q = game.spec_queue();
            assert(q[qi as int].player_id == player_id);
            let qi2 = crate::game::queue_index_of(q, player_id);
            assert(0 <= qi2 < q.len() && q[qi2].player_id == player_id);
            assert(qi2 == qi as int);
        }
        let mut gp = game.player_at(qi).clone();
        if gp.get_has_shuffled() {
            self.games.insert(gi, game);
            proof {
                assert(self.games@ =~= old(self).spec_games());
            }
            return Err(GameError::HasShuffled);
        }
        let cards = gp.get_new_card();
        game.set_player_at(qi, gp);
        let targets = ids_except(&game, player_id);
        self.games.insert(gi, game);
        outbox.push(
            Broadcast {
                targets,
                data: ResponseData::GameBroadcast(
                    GameBroadcast {
                        event: GameEvent::Shuffle,
                        board: None,
                        players: None,
                        current_player: None,
                        next_player: None,
                        words: None,
                        cards: None,
                    },
                ),
            },
        );
        proof {
            assert(self.games@ =~= old(self).spec_games().update(
                gi as int,
                self.games@[gi as int],
            ));
            assert forall|a: int, b: int|
                0 <= a < b < self.games@.len() implies (#[trigger] self.games@[a]).spec_id() != (
                #[trigger] self.games@[b]).spec_id() by {
                assert(old(self).spec_games()[a].spec_id() != old(self).spec_games()[b].spec_id());
            }
            assert(final(outbox)@ == old(outbox)@.push(final(outbox)@.last()));
        }
        Ok(cards)
    }
}

/// The ids of every player in the match but one (the broadcast audience
/// for an action of that one player).
fn ids_except(game: &Game, pid: u32) -> (r: Vec<u32>)
    ensures
        forall|k: int| 0 <= k < r@.len() ==> queue_ids(game.spec_queue()).contains(#[trigger] r@[k]),
        forall|k: int| 0 <= k < r@.len() ==> #[trigger] r@[k] != pid,
{
    let n = game.player_count();
    let mut r: Vec<u32> = Vec::new();
    let mut i: usize = 0;
    while i < n
        invariant
            n == game.spec_queue().len(),
            i <= n,
            forall|k: int|
                0 <= k < r@.len() ==> queue_ids(game.spec_queue()).contains(#[trigger] r@[k]),
            forall|k: int| 0 <= k < r@.len() ==> #[trigger] r@[k] != pid,
        decreases n - i,
    {
        let id = game.player_at(i).player_id;
        if id != pid {
            r.push(id);
            proof {
                assert(queue_ids(game.spec_queue())[i as int] == id);
            }
        }
        i = i + 1;
    }
    r
}

/// The ids of every player in the match.
fn all_ids(game: &Game) -> (r: Vec<u32>)
    ensures
        r@ == queue_ids(game.spec_queue()),
{
    let n = game.player_count();
    let mut r: Vec<u32> = Vec::new();
    let mut i: usize = 0;
    while i < n
        invariant
            n == game.spec_queue().len(),
            i <= n,
            r@.len() == i,
            forall|k: int| 0 <= k < i ==> #[trigger] r@[k] == game.spec_queue()[k].player_id,
        decreases n - i,
    {
        r.push(game.player_at(i).player_id);
        i = i + 1;
    }
    proof {
        assert(r@ =~= queue_ids(game.spec_queue()));
    }
    r
}


/// Shuffling is granted at most once per turn: after a successful
/// shuffle, a second call in the same turn (no `next_turn` between)
/// fails with `HasShuffled` and leaves every hand exactly as it was.
pub proof fn lemma_shuffle_once_per_turn(
    s0: GameService,
    s1: GameService,
    s2: GameService,
    ob0: Seq<Broadcast>,
    ob1: Seq<Broadcast>,
    ob2: Seq<Broadcast>,
    game_id: u32,
    player_id: u32,
    r1: Result<Vec<Card>, GameError>,
    r2: Result<Vec<Card>, GameError>,
)
    requires
        s0.wf(),
        shuffle_transition(s0, s1, ob0, ob1, game_id, player_id, r1),
        r1 is Ok,
        shuffle_transition(s1, s2, ob1, ob2, game_id, player_id, r2),
    ensures
        r2 == Err::<Vec<Card>, GameError>(GameError::HasShuffled),
        s2.spec_games() == s1.spec_games(),
{
    let i = game_index_of(s0.spec_games(), game_id);
    let g0 = game_of(s0.spec_games(), game_id);
    let qi = crate::game::queue_index_of(g0.spec_queue(), player_id);
    let g1 = s1.spec_games()[i];
    assert(0 <= i < s0.spec_games().len() && s0.spec_games()[i].spec_id() == game_id);
    assert(g1.spec_id() == game_id);
    assert(games_has(s1.spec_games(), game_id));
    let i2 = game_index_of(s1.spec_games(), game_id);
    assert(0 <= i2 < s1.spec_games().len() && s1.spec_games()[i2].spec_id() == game_id);
    assert(i2 == i) by {
        if i2 != i {
            assert(s0.spec_games()[i2].spec_id() == s1.spec_games()[i2].spec_id());
        }
    }
    assert(g0.wf());
    let gp1 = g1.spec_queue()[qi];
    assert(0 <= qi < g0.spec_queue().len() && g0.spec_queue()[qi].player_id == player_id);
    assert(crate::game::queue_has(g1.spec_queue(), player_id)) by {
        assert(g1.spec_queue()[qi].player_id == player_id);
    }
    let qi2 = crate::game::queue_index_of(g1.spec_queue(), player_id);
    assert(0 <= qi2 < g1.spec_queue().len() && g1.spec_queue()[qi2].player_id == player_id);
    assert(qi2 == qi) by {
        if qi2 != qi {
            assert(g0.spec_queue()[qi2].player_id == g1.spec_queue()[qi2].player_id);
            assert(g0.spec_queue()[qi2].player_id != g0.spec_queue()[qi].player_id);
        }
    }
    assert(crate::game::queue_player(g1.spec_queue(), player_id).has_shuffled);
    if r2 is Ok {
        assert(!crate::game::queue_player(
            game_of(s1.spec_games(), game_id).spec_queue(),
            player_id,
        ).has_shuffled);
        assert(false);
    }
}

impl GameService {
    /// Puts a tile on a cell of the match's board and shows the changed
    /// board to every other player.
    pub fn place_tile_on_board(
        &mut self,
        game_id: u32,
        tile: Tile,
        x: usize,
        y: usize,
        outbox: &mut Vec<Broadcast>,
    ) -> (r: Result<(), GameError>)
        requires
            old(self).wf(),
            x < 26,
            y < 26,
        ensures
            final(self).wf(),
            final(self).spec_next_id() == old(self).spec_next_id(),
            match r {
                Ok(()) => {
                    let i = game_index_of(old(self).spec_games(), game_id);
                    let g0 = game_of(old(self).spec_games(), game_id);
                    let g1 = final(self).spec_games()[i];
                    &&& games_has(old(self).spec_games(), game_id)
                    &&& final(self).spec_games() == old(self).spec_games().update(i, g1)
                    &&& g1.spec_board().cell(x as int, y as int) == Some(tile)
                    &&& forall|r2: int, c2: int|
                        0 <= r2 < 26 && 0 <= c2 < 26 && !(r2 == x as int && c2 == y as int)
                            ==> g1.spec_board().cell(r2, c2) == g0.spec_board().cell(r2, c2)
                    &&& g1.spec_queue() == g0.spec_queue()
                    &&& g1.spec_turn() == g0.spec_turn()
                    &&& g1.spec_backup() == g0.spec_backup()
                    &&& g1.spec_timer() == g0.spec_timer()
                    &&& g1.spec_token_counter() == g0.spec_token_counter()
                    &&& g1.spec_id() == g0.spec_id()
                    &&& final(outbox)@ == old(outbox)@.push(final(outbox)@.last())
                    &&& placetile_broadcast(final(outbox)@.last(), g1)
                },
                Err(e) => {
                    &&& e == GameError::GameNotFound
                    &&& !games_has(old(self).spec_games(), game_id)
                    &&& final(self).spec_games() == old(self).spec_games()
                    &&& final(outbox)@ == old(outbox)@
                },
            },
    {
        let gi = match self.index_of(game_id) {
            Some(i) => i,
            None => {
                return Err(GameError::GameNotFound);
            },
        };
        proof {
            let i2 = game_index_of(self.spec_games(), game_id);
            assert(0 <= i2 < self.spec_games().len() && self.spec_games()[i2].spec_id()
                == game_id);
            assert(i2 == gi as int);
        }
        let mut game = self.games.remove(gi);
        game.set_cell(x, y, Some(tile));
        let targets = if game.player_count() > 0 {
            let holder = game.get_player_in_this_turn().player_id;
            ids_except(&game, holder)
        } else {
            Vec::new()
        };
        let board_copy = game.get_board().clone();
        self.games.insert(gi, game);
        outbox.push(
            Broadcast {
                targets,
                data: ResponseData::GameBroadcast(
                    GameBroadcast {
                        event: GameEvent::PlaceTile,
                        board: Some(board_copy),
                        players: None,
                        current_player: None,
                        next_player: None,
                        words: None,
                        cards: None,
                    },
                ),
            },
        );
        proof {
            assert(self.games@ =~= old(self).spec_games().update(
                gi as int,
                self.games@[gi as int],
            ));
            assert forall|a: int, b: int|
                0 <= a < b < self.games@.len() implies (#[trigger] self.games@[a]).spec_id() != (
                #[trigger] self.games@[b]).spec_id() by {
                assert(old(self).spec_games()[a].spec_id() != old(self).spec_games()[b].spec_id());
            }
            assert(final(outbox)@ == old(outbox)@.push(final(outbox)@.last()));
        }
        Ok(())
    }

    /// Clears a cell whose placement is being cancelled and shows the
    /// changed board to every other player.
    pub fn remove_selected_tile(
        &mut self,
        x: u32,
        y: u32,
        game_id: u32,
        outbox: &mut Vec<Broadcast>,
    ) -> (r: Result<(), GameError>)
        requires
            old(self).wf(),
            x < 26,
            y < 26,
        ensures
            final(self).wf(),
            final(self).spec_next_id() == old(self).spec_next_id(),
            match r {
                Ok(()) => {
                    let i = game_index_of(old(self).spec_games(), game_id);
                    let g0 = game_of(old(self).spec_games(), game_id);
                    let g1 = final(self).spec_games()[i];
                    &&& games_has(old(self).spec_games(), game_id)
                    &&& final(self).spec_games() == old(self).spec_games().update(i, g1)
                    &&& g1.spec_board().cell(x as int, y as int) is None
                    &&& forall|r2: int, c2: int|
                        0 <= r2 < 26 && 0 <= c2 < 26 && !(r2 == x as int && c2 == y as int)
                            ==> g1.spec_board().cell(r2, c2) == g0.spec_board().cell(r2, c2)
                    &&& g1.spec_queue() == g0.spec_queue()
                    &&& g1.spec_turn() == g0.spec_turn()
                    &&& g1.spec_backup() == g0.spec_backup()
                    &&& g1.spec_timer() == g0.spec_timer()
                    &&& g1.spec_token_counter() == g0.spec_token_counter()
                    &&& g1.spec_id() == g0.spec_id()
                    &&& final(outbox)@ == old(outbox)@.push(final(outbox)@.last())
                    &&& placetile_broadcast(final(outbox)@.last(), g1)
                },
                Err(e) => {
                    &&& e == GameError::GameNotFound
                    &&& !games_has(old(self).spec_games(), game_id)
                    &&& final(self).spec_games() == old(self).spec_games()
                    &&& final(outbox)@ == old(outbox)@
                },
            },
    {
        let gi = match self.index_of(game_id) {
            Some(i) => i,
            None => {
                return Err(GameError::GameNotFound);
            },
        };
        proof {
            let i2 = game_index_of(self.spec_games(), game_id);
            assert(0 <= i2 < self.spec_games().len() && self.spec_games()[i2].spec_id()
                == game_id);
            assert(i2 == gi as int);
        }
        let mut game = self.games.remove(gi);
        game.set_cell(x as usize, y as usize, None);
        let targets = if game.player_count() > 0 {
            let holder = game.get_player_in_this_turn().player_id;
            ids_except(&game, holder)
        } else {
            Vec::new()
        };
        let board_copy = game.get_board().clone();
        self.games.insert(gi, game);
        outbox.push(
            Broadcast {
                targets,
                data: ResponseData::GameBroadcast(
                    GameBroadcast {
                        event: GameEvent::PlaceTile,
                        board: Some(board_copy),
                        players: None,
                        current_player: None,
                        next_player: None,
                        words: None,
                        cards: None,
                    },
                ),
            },
        );
        proof {
            assert(self.games@ =~= old(self).spec_games().update(
                gi as int,
                self.games@[gi as int],
            ));
            assert forall|a: int, b: int|
                0 <= a < b < self.games@.len() implies (#[trigger] self.games@[a]).spec_id() != (
                #[trigger] self.games@[b]).spec_id() by {
                assert(old(self).spec_games()[a].spec_id() != old(self).spec_games()[b].spec_id());
            }
            assert(final(outbox)@ == old(outbox)@.push(final(outbox)@.last()));
        }
        Ok(())
    }
}


/// The queue after an accepted finish: the front player's hand was
/// refreshed, then the rotation moved them to the back with the shuffle
/// flag cleared.
pub open spec fn queue_after_finish(q0: Seq<GamePlayer>, q1: Seq<GamePlayer>) -> bool {
    &&& q0.len() >= 1
    &&& q1.len() == q0.len()
    &&& forall|i: int| 0 <= i < q0.len() - 1 ==> q1[i] == q0[i + 1]
    &&& q1.last().player_id == q0[0].player_id
    &&& fresh_hand(q1.last().cards@)
    &&& !q1.last().has_shuffled
}

/// What an accepted finish (either path) did to the match when the game
/// went on: the turn advanced by one, the committed board was
/// snapshotted, and a fresh timer was armed (a fresh token, never one
/// handed out before).
pub open spec fn game_continued(g0: Game, g1: Game, out: FinishOutcome) -> bool {
    &&& g1.spec_id() == g0.spec_id()
    &&& g1.spec_turn() == g0.spec_turn() + 1
    &&& queue_after_finish(g0.spec_queue(), g1.spec_queue())
    &&& g1.spec_backup().grid() == g1.spec_board().grid()
    &&& (g0.spec_token_counter() < u64::MAX ==> g1.spec_timer() == Some(
        g0.spec_token_counter(),
    ) && out.timer_token == Some(g0.spec_token_counter()) && g1.spec_token_counter() == g0.spec_token_counter() + 1)
    &&& (g0.spec_token_counter() == u64::MAX ==> g1.spec_timer() is None && out.timer_token
        is None)
    &&& match g1.spec_timer() {
        Some(t) => t >= g0.spec_token_counter(),
        None => true,
    }
}

/// What the explicit, player-initiated finish did. Rejection — an
/// invalid board — changes nothing at all: the turn stays open and the
/// player may keep editing. Acceptance commits the board as it stands,
/// scores exactly the words of the two-pass validation, advances the
/// turn, and either arms the next turn's timer or — once the turn
/// counter passes the end-of-game threshold — destroys the game.
pub open spec fn explicit_finish_transition(
    pre: GameService,
    post: GameService,
    outbox_pre: Seq<Broadcast>,
    outbox_post: Seq<Broadcast>,
    game_id: u32,
    r: Result<FinishOutcome, GameError>,
) -> bool {
    let i = game_index_of(pre.spec_games(), game_id);
    let g0 = game_of(pre.spec_games(), game_id);
    match r {
        Ok(out) => {
            &&& games_has(pre.spec_games(), game_id)
            &&& g0.spec_queue().len() >= 1
            &&& spec_validate(g0.spec_board(), pre.dict(), g0.spec_queue()[0].player_id) is Some
            &&& out.words.deep_view() == spec_validate(
                g0.spec_board(),
                pre.dict(),
                g0.spec_queue()[0].player_id,
            ).unwrap()
            &&& out.game_ended == (g0.spec_turn() >= END_GAME_TURN)
            &&& (if out.game_ended {
                &&& post.spec_games() == pre.spec_games().remove(i)
                &&& outbox_post.len() == outbox_pre.len() + 2
            } else {
                &&& post.spec_games() == pre.spec_games().update(i, post.spec_games()[i])
                &&& post.spec_games()[i].spec_board().grid() == g0.spec_board().grid()
                &&& game_continued(g0, post.spec_games()[i], out)
                &&& outbox_post.len() == outbox_pre.len() + 1
            })
            &&& outbox_post.subrange(0, outbox_pre.len() as int) == outbox_pre
        },
        Err(e) => {
            &&& post.spec_games() == pre.spec_games()
            &&& outbox_post == outbox_pre
            &&& (e == GameError::GameNotFound || e == GameError::PlayerNotFound || e
                == GameError::InvalidWord)
            &&& (e == GameError::GameNotFound <==> !games_has(pre.spec_games(), game_id))
            &&& (e == GameError::PlayerNotFound <==> (games_has(pre.spec_games(), game_id)
                && g0.spec_queue().len() == 0))
            &&& (e == GameError::InvalidWord <==> (games_has(pre.spec_games(), game_id)
                && g0.spec_queue().len() >= 1 && spec_validate(
                g0.spec_board(),
                pre.dict(),
                g0.spec_queue()[0].player_id,
            ) is None))
        },
    }
}

/// What the timeout-forced finish did. A stale token — displaced by a
/// newer arm, or already taken by an explicit finish — claims nothing
/// and changes nothing. The live token always advances the turn: an
/// invalid board is rolled back to the last committed snapshot (the
/// player simply loses the turn) instead of being reported to anyone.
pub open spec fn timeout_finish_transition(
    pre: GameService,
    post: GameService,
    outbox_pre: Seq<Broadcast>,
    outbox_post: Seq<Broadcast>,
    game_id: u32,
    token: u64,
    r: Result<Option<FinishOutcome>, GameError>,
) -> bool {
    let i = game_index_of(pre.spec_games(), game_id);
    let g0 = game_of(pre.spec_games(), game_id);
    match r {
        Ok(opt) => match opt {
            None => {
                &&& games_has(pre.spec_games(), game_id)
                &&& g0.spec_timer() != Some(token)
                &&& post.spec_games() == pre.spec_games()
                &&& outbox_post == outbox_pre
            },
            Some(out) => {
                let valid = spec_validate(
                    g0.spec_board(),
                    pre.dict(),
                    g0.spec_queue()[0].player_id,
                );
                &&& games_has(pre.spec_games(), game_id)
                &&& g0.spec_timer() == Some(token)
                &&& g0.spec_queue().len() >= 1
                &&& (if valid is Some {
                    out.words.deep_view() == valid.unwrap()
                } else {
                    out.words.deep_view() == Seq::<Seq<char>>::empty()
                })
                &&& out.game_ended == (g0.spec_turn() >= END_GAME_TURN)
                &&& (if out.game_ended {
                    &&& post.spec_games() == pre.spec_games().remove(i)
                } else {
                    &&& post.spec_games() == pre.spec_games().update(i, post.spec_games()[i])
                    &&& game_continued(g0, post.spec_games()[i], out)
                    &&& (valid is Some ==> post.spec_games()[i].spec_board().grid()
                        == g0.spec_board().grid())
                    &&& (valid is None ==> post.spec_games()[i].spec_board().grid()
                        == g0.spec_backup().grid())
                })
                &&& outbox_post.subrange(0, outbox_pre.len() as int) == outbox_pre
            },
        },
        Err(e) => {
            &&& post.spec_games() == pre.spec_games()
            &&& outbox_post == outbox_pre
            &&& (e == GameError::GameNotFound || e == GameError::PlayerNotFound)
            &&& (e == GameError::GameNotFound <==> !games_has(pre.spec_games(), game_id))
            &&& (e == GameError::PlayerNotFound <==> (games_has(pre.spec_games(), game_id)
                && g0.spec_timer() == Some(token) && g0.spec_queue().len() == 0))
        },
    }
}

/// Copies a word list for a broadcast.
fn clone_words(ws: &Vec<String>) -> (r: Vec<String>)
    ensures
        r.deep_view() == ws.deep_view(),
{
    let n = ws.len();
    let mut r: Vec<String> = Vec::new();
    let mut i: usize = 0;
    while i < n
        invariant
            n == ws@.len(),
            i <= n,
            r@.len() == i,
            forall|j: int| 0 <= j < i ==> (#[trigger] r@[j])@ == ws@[j]@,
        decreases n - i,
    {
        r.push(ws[i].clone());
        i = i + 1;
    }
    proof {
        assert(r.deep_view() =~= ws.deep_view());
    }
    r
}

impl GameService {
    /// The shared tail of both finish paths, entered with the game taken
    /// out of the registry and its board already settled (kept, for the
    /// explicit path; possibly rolled back, for the timeout path). It
    /// refreshes the finisher's hand, advances the rotation, snapshots
    /// the board, and re-arms or tears down.
    fn finish_turn(
        &mut self,
        players: &mut PlayerService,
        mut game: Game,
        gi: usize,
        words: Vec<String>,
        outbox: &mut Vec<Broadcast>,
    ) -> (out: FinishOutcome)
        requires
            old(self).wf(),
            old(players).wf(),
            game.wf(),
            game.spec_queue().len() >= 1,
            gi <= old(self).spec_games().len(),
            game.spec_id() < old(self).spec_next_id(),
            forall|j: int|
                0 <= j < old(self).spec_games().len() ==> (#[trigger] old(self).spec_games()[
                    j]).spec_id() != game.spec_id(),
        ensures
            final(self).wf(),
            final(players).wf(),
            final(self).spec_next_id() == old(self).spec_next_id(),
            out.words == words,
            out.game_ended == (game.spec_turn() >= END_GAME_TURN),
            out.game_ended ==> forall|pid: u32|
                crate::game::queue_has(game.spec_queue(), pid) ==> game_ref_is(
                    *final(players),
                    pid,
                    None,
                ),
            (if out.game_ended {
                &&& final(self).spec_games() == old(self).spec_games()
                &&& final(outbox)@.len() == old(outbox)@.len() + 2
            } else {
                &&& final(self).spec_games() == old(self).spec_games().insert(
                    gi as int,
                    final(self).spec_games()[gi as int],
                )
                &&& game_continued(game, final(self).spec_games()[gi as int], out)
                &&& final(self).spec_games()[gi as int].spec_board().grid()
                    == game.spec_board().grid()
                &&& final(outbox)@.len() == old(outbox)@.len() + 1
            }),
            final(outbox)@.subrange(0, old(outbox)@.len() as int) == old(outbox)@,
    {
        let ghost g0 = game;
        // refresh the finisher's hand, then rotate them to the back
        let mut front = game.player_at(0).clone();
        let _ = front.get_new_card();
        game.set_player_at(0, front);
        proof {
            assert forall|a: int, b: int|
                0 <= a < b < game.spec_queue().len() implies (#[trigger] game.spec_queue()[
                a]).player_id != (#[trigger] game.spec_queue()[b]).player_id by {
                assert(g0.spec_queue()[a].player_id != g0.spec_queue()[b].player_id);
                assert(game.spec_queue()[a].player_id == g0.spec_queue()[a].player_id);
                assert(game.spec_queue()[b].player_id == g0.spec_queue()[b].player_id);
            }
            assert forall|a: int| 0 <= a < game.spec_queue().len() implies (
            #[trigger] game.spec_queue()[a]).wf() by {
                assert(g0.spec_queue()[a].wf());
                if a == 0 {
                    assert(fresh_hand(game.spec_queue()[0].cards@));
                }
            }
            assert(game.wf());
        }
        let _ = game.cancel_timeout_task();
        let ended = game.get_turns() >= END_GAME_TURN;
        if !ended {
            let _ = game.next_turn();
        }
        game.backup_board();
        let ids = all_ids(&game);
        let words_copy = clone_words(&words);
        let board_copy = game.get_board().clone();
        let holder_info = if game.player_count() > 0 {
            Some(PlayerInfo { id: game.get_player_in_this_turn().player_id, name: String::new() })
        } else {
            None
        };
        let next_info = if game.player_count() > 0 {
            match game.get_next_turn_player() {
                Some(np) => Some(PlayerInfo { id: np.player_id, name: String::new() }),
                None => None,
            }
        } else {
            None
        };
        if ended {
            // teardown: clear the members' game references and tell them
            let n = ids.len();
            let mut k: usize = 0;
            while k < n
                invariant
                    k <= n,
                    n == ids@.len(),
                    players.wf(),
                    forall|j: int| 0 <= j < k ==> game_ref_is(*players, #[trigger] ids@[j], None),
                decreases n - k,
            {
                let ghost pre = *players;
                players.set_player_game(ids[k], None);
                proof {
                    assert forall|j: int| 0 <= j < k + 1 implies game_ref_is(
                        *players,
                        #[trigger] ids@[j],
                        None,
                    ) by {
                        let id = ids@[j];
                        if players.has(id) {
                            let m = choose|m: int|
                                0 <= m < players.players().len() && (
                                #[trigger] players.players()[m]).id == id;
                            if pre.players()[m].id == ids@[k as int] {
                                players.lemma_player_of_index(m, id);
                            } else {
                                pre.lemma_player_of_index(m, id);
                                players.lemma_player_of_index(m, id);
                                if j == k {
                                    assert(false);
                                }
                            }
                        }
                    }
                }
                k = k + 1;
            }
            proof {
                assert forall|pid: u32|
                    crate::game::queue_has(g0.spec_queue(), pid) implies game_ref_is(
                    *players,
                    pid,
                    None,
                ) by {
                    let qi = choose|qi: int|
                        0 <= qi < g0.spec_queue().len() && (#[trigger] g0.spec_queue()[
                        qi]).player_id == pid;
                    assert(game.spec_queue()[qi].player_id == pid);
                    assert(ids@[qi] == pid);
                }
            }
            let mut destroy_targets: Vec<u32> = Vec::new();
            let mut finish_targets: Vec<u32> = Vec::new();
            let mut k: usize = 0;
            while k < n
                invariant
                    k <= n,
                    n == ids@.len(),
                decreases n - k,
            {
                destroy_targets.push(ids[k]);
                finish_targets.push(ids[k]);
                k = k + 1;
            }
            outbox.push(
                Broadcast {
                    targets: destroy_targets,
                    data: ResponseData::GameBroadcast(
                        GameBroadcast {
                            event: GameEvent::Destroy,
                            board: None,
                            players: None,
                            current_player: None,
                            next_player: None,
                            words: None,
                            cards: None,
                        },
                    ),
                },
            );
            outbox.push(
                Broadcast {
                    targets: finish_targets,
                    data: ResponseData::GameBroadcast(
                        GameBroadcast {
                            event: GameEvent::FinishTurn,
                            board: Some(board_copy),
                            players: None,
                            current_player: holder_info,
                            next_player: next_info,
                            words: Some(words_copy),
                            cards: None,
                        },
                    ),
                },
            );
            proof {
                assert(final(outbox)@.subrange(0, old(outbox)@.len() as int) =~= old(outbox)@);
            }
            FinishOutcome { words, game_ended: true, timer_token: None }
        } else {
            let tok = if game.token_counter_value() < u64::MAX {
                Some(game.arm_timer())
            } else {
                None
            };
            self.games.insert(gi, game);
            outbox.push(
                Broadcast {
                    targets: ids,
                    data: ResponseData::GameBroadcast(
                        GameBroadcast {
                            event: GameEvent::FinishTurn,
                            board: Some(board_copy),
                            players: None,
                            current_player: holder_info,
                            next_player: next_info,
                            words: Some(words_copy),
                            cards: None,
                        },
                    ),
                },
            );
            proof {
                assert(final(self).spec_games() =~= old(self).spec_games().insert(
                    gi as int,
                    final(self).spec_games()[gi as int],
                ));
                assert forall|a: int, b: int|
                    0 <= a < b < final(self).spec_games().len() implies (#[trigger] final(self).spec_games()[a]).spec_id() != (#[trigger] final(self).spec_games()[
                    b]).spec_id() by {
                    let sg = final(self).spec_games();
                    let a0 = if a < gi as int { a } else { a - 1 };
                    let b0 = if b < gi as int { b } else { b - 1 };
                    if a == gi as int {
                        assert(old(self).spec_games()[b0].spec_id() != sg[a].spec_id());
                    } else if b == gi as int {
                        assert(old(self).spec_games()[a0].spec_id() != sg[b].spec_id());
                    } else {
                        assert(sg[a] == old(self).spec_games()[a0] && sg[b] == old(self).spec_games()[b0]);
                        assert(old(self).spec_games()[a0].spec_id() != old(self).spec_games()[
                            b0].spec_id());
                    }
                }
                assert(final(outbox)@.subrange(0, old(outbox)@.len() as int) =~= old(outbox)@);
            }
            FinishOutcome { words, game_ended: false, timer_token: tok }
        }
    }
}


impl GameService {
    /// The explicit, player-initiated finish: validates the board as it
    /// stands; rejection leaves everything untouched, acceptance commits
    /// and advances.
    pub fn validate_board_and_finish_turn(
        &mut self,
        players: &mut PlayerService,
        game_id: u32,
        outbox: &mut Vec<Broadcast>,
    ) -> (r: Result<FinishOutcome, GameError>)
        requires
            old(self).wf(),
            old(players).wf(),
        ensures
            final(self).wf(),
            final(players).wf(),
            final(self).spec_next_id() == old(self).spec_next_id(),
            r is Err ==> final(players).players() == old(players).players(),
            explicit_finish_transition(
                *old(self),
                *final(self),
                old(outbox)@,
                final(outbox)@,
                game_id,
                r,
            ),
            r matches Ok(out) && out.game_ended ==> forall|pid: u32|
                crate::game::queue_has(
                    game_of(old(self).spec_games(), game_id).spec_queue(),
                    pid,
                ) ==> game_ref_is(*final(players), pid, None),
    {
        let gi = match self.index_of(game_id) {
            Some(i) => i,
            None => {
                return Err(GameError::GameNotFound);
            },
        };
        proof {
            let i2 = game_index_of(self.spec_games(), game_id);
            assert(0 <= i2 < self.spec_games().len() && self.spec_games()[i2].spec_id()
                == game_id);
            assert(i2 == gi as int);
        }
        let game = self.games.remove(gi);
        if game.player_count() == 0 {
            self.games.insert(gi, game);
            proof {
                assert(self.games@ =~= old(self).spec_games());
            }
            return Err(GameError::PlayerNotFound);
        }
        let pid = game.get_player_in_this_turn().player_id;
        let words = game.get_board().validate(&self.wordlist, pid);
        match words {
            None => {
                self.games.insert(gi, game);
                proof {
                    assert(self.games@ =~= old(self).spec_games());
                }
                Err(GameError::InvalidWord)
            },
            Some(words) => {
                proof {
                    assert forall|j: int|
                        0 <= j < self.spec_games().len() implies (#[trigger] self.spec_games()[
                        j]).spec_id() != game.spec_id() by {
                        let j0 = if j < gi as int { j } else { j + 1 };
                        assert(self.spec_games()[j] == old(self).spec_games()[j0]);
                        assert(old(self).spec_games()[j0].spec_id() != old(self).spec_games()[
                            gi as int].spec_id());
                    }
                }
                let out = self.finish_turn(players, game, gi, words, outbox);
                proof {
                    if !out.game_ended {
                        assert(final(self).spec_games() =~= old(self).spec_games().update(
                            gi as int,
                            final(self).spec_games()[gi as int],
                        ));
                    } else {
                        assert(final(self).spec_games() =~= old(self).spec_games().remove(
                            gi as int,
                        ));
                    }
                }
                Ok(out)
            },
        }
    }

    /// The timeout-forced finish, fired by the timer task holding
    /// `token`. Whoever lost the race for the timer slot does nothing;
    /// the winner advances the turn, rolling an invalid board back
    /// silently.
    pub fn timeout_finish_turn(
        &mut self,
        players: &mut PlayerService,
        game_id: u32,
        token: u64,
        outbox: &mut Vec<Broadcast>,
    ) -> (r: Result<Option<FinishOutcome>, GameError>)
        requires
            old(self).wf(),
            old(players).wf(),
        ensures
            final(self).wf(),
            final(players).wf(),
            final(self).spec_next_id() == old(self).spec_next_id(),
            (r matches Err(_) || (r matches Ok(opt) && opt is None)) ==> final(players).players()
                == old(players).players(),
            timeout_finish_transition(
                *old(self),
                *final(self),
                old(outbox)@,
                final(outbox)@,
                game_id,
                token,
                r,
            ),
            r matches Ok(opt) && opt matches Some(out) && out.game_ended ==> forall|pid: u32|
                crate::game::queue_has(
                    game_of(old(self).spec_games(), game_id).spec_queue(),
                    pid,
                ) ==> game_ref_is(*final(players), pid, None),
    {
        let gi = match self.index_of(game_id) {
            Some(i) => i,
            None => {
                return Err(GameError::GameNotFound);
            },
        };
        proof {
            let i2 = game_index_of(self.spec_games(), game_id);
            assert(0 <= i2 < self.spec_games().len() && self.spec_games()[i2].spec_id()
                == game_id);
            assert(i2 == gi as int);
        }
        if !self.games[gi].timer_matches(token) {
            return Ok(None);
        }
        if self.games[gi].player_count() == 0 {
            return Err(GameError::PlayerNotFound);
        }
        let mut game = self.games.remove(gi);
        let claimed = game.claim_timer(token);
        proof {
            assert(claimed);
        }
        let pid = game.get_player_in_this_turn().player_id;
        let valid = game.get_board().validate(&self.wordlist, pid);
        let words = match valid {
            Some(words) => words,
            None => {
                // no-penalty rollback: drop the uncommitted placements
                game.restore_board();
                let empty_words: Vec<String> = Vec::new();
                proof {
                    assert(empty_words.deep_view() =~= Seq::<Seq<char>>::empty());
                }
                empty_words
            },
        };
        proof {
            assert forall|j: int|
                0 <= j < self.spec_games().len() implies (#[trigger] self.spec_games()[
                j]).spec_id() != game.spec_id() by {
                let j0 = if j < gi as int { j } else { j + 1 };
                assert(self.spec_games()[j] == old(self).spec_games()[j0]);
                assert(old(self).spec_games()[j0].spec_id() != old(self).spec_games()[
                    gi as int].spec_id());
            }
        }
        let out = self.finish_turn(players, game, gi, words, outbox);
        proof {
            if !out.game_ended {
                assert(final(self).spec_games() =~= old(self).spec_games().update(
                    gi as int,
                    final(self).spec_games()[gi as int],
                ));
            } else {
                assert(final(self).spec_games() =~= old(self).spec_games().remove(gi as int));
            }
        }
        Ok(Some(out))
    }
}


/// Exactly one of the explicit finish and the timeout-forced finish
/// executes the turn advance for a given turn. Once an accepted explicit
/// finish has run, the timer task's token is stale: its claim fails (or
/// the game is already gone), it changes nothing, and the turn counter
/// has moved by exactly one — never zero, never two.
pub proof fn lemma_exactly_one_advance(
    s0: GameService,
    s1: GameService,
    s2: GameService,
    ob0: Seq<Broadcast>,
    ob1: Seq<Broadcast>,
    ob2: Seq<Broadcast>,
    game_id: u32,
    tok: u64,
    r1: Result<FinishOutcome, GameError>,
    r2: Result<Option<FinishOutcome>, GameError>,
)
    requires
        s0.wf(),
        games_has(s0.spec_games(), game_id),
        game_of(s0.spec_games(), game_id).spec_timer() == Some(tok),
        explicit_finish_transition(s0, s1, ob0, ob1, game_id, r1),
        r1 is Ok,
        timeout_finish_transition(s1, s2, ob1, ob2, game_id, tok, r2),
    ensures
        s2.spec_games() == s1.spec_games(),
        !r1.unwrap().game_ended ==> games_has(s1.spec_games(), game_id) && game_of(
            s1.spec_games(),
            game_id,
        ).spec_turn() == game_of(s0.spec_games(), game_id).spec_turn() + 1,
{
    let i = game_index_of(s0.spec_games(), game_id);
    let g0 = game_of(s0.spec_games(), game_id);
    assert(0 <= i < s0.spec_games().len() && s0.spec_games()[i].spec_id() == game_id);
    assert(g0.wf());
    assert(tok < g0.spec_token_counter());
    let out = r1.unwrap();
    if out.game_ended {
        // the game is gone: no other game carries its id
        assert(s1.spec_games() == s0.spec_games().remove(i));
        assert forall|j: int| 0 <= j < s1.spec_games().len() implies (#[trigger] s1.spec_games()[
            j]).spec_id() != game_id by {
            let j0 = if j < i { j } else { j + 1 };
            assert(s1.spec_games()[j] == s0.spec_games()[j0]);
            assert(s0.spec_games()[j0].spec_id() != s0.spec_games()[i].spec_id());
        }
        assert(!games_has(s1.spec_games(), game_id));
        match r2 {
            Ok(opt) => {
                assert(games_has(s1.spec_games(), game_id));
                assert(false);
            },
            Err(e) => {
                assert(s2.spec_games() == s1.spec_games());
            },
        }
    } else {
        let g1 = s1.spec_games()[i];
        assert(s1.spec_games() == s0.spec_games().update(i, g1));
        assert(game_continued(g0, g1, out));
        assert(g1.spec_id() == game_id);
        assert(games_has(s1.spec_games(), game_id));
        let i1 = game_index_of(s1.spec_games(), game_id);
        assert(0 <= i1 < s1.spec_games().len() && s1.spec_games()[i1].spec_id() == game_id);
        assert(i1 == i) by {
            if i1 != i {
                assert(s1.spec_games()[i1].spec_id() == s0.spec_games()[i1].spec_id());
                assert(s0.spec_games()[i1].spec_id() != s0.spec_games()[i].spec_id());
            }
        }
        // the stale token cannot claim the fresh (or empty) timer slot
        assert(g1.spec_timer() != Some(tok)) by {
            match g1.spec_timer() {
                Some(t) => {
                    assert(t >= g0.spec_token_counter());
                },
                None => {},
            }
        }
        match r2 {
            Ok(opt) => match opt {
                None => {
                    assert(s2.spec_games() == s1.spec_games());
                },
                Some(out2) => {
                    assert(game_of(s1.spec_games(), game_id).spec_timer() == Some(tok));
                    assert(false);
                },
            },
            Err(e) => {
                assert(!games_has(s1.spec_games(), game_id));
                assert(false);
            },
        }
    }
}

/// What a successful exit did: the player's record came out of their
/// match's rotation (the whole match, when they were its last player),
/// their game reference is cleared, and one roster notification was
/// queued for the remaining players.
pub open spec fn left_game(
    players_pre: PlayerService,
    players_post: PlayerService,
    games_pre: GameService,
    games_post: GameService,
    outbox_pre: Seq<Broadcast>,
    outbox_post: Seq<Broadcast>,
    pid: u32,
) -> bool {
    let gid = players_pre.player_of(pid).game->Some_0;
    let i = game_index_of(games_pre.spec_games(), gid);
    let g0 = game_of(games_pre.spec_games(), gid);
    let qi = crate::game::queue_index_of(g0.spec_queue(), pid);
    &&& players_pre.has(pid)
    &&& players_pre.player_of(pid).game is Some
    &&& games_has(games_pre.spec_games(), gid)
    &&& crate::game::queue_has(g0.spec_queue(), pid)
    &&& (if g0.spec_queue().len() == 1 {
        games_post.spec_games() == games_pre.spec_games().remove(i)
    } else {
        &&& games_post.spec_games() == games_pre.spec_games().update(
            i,
            games_post.spec_games()[i],
        )
        &&& games_post.spec_games()[i].spec_queue() == g0.spec_queue().remove(qi)
        &&& games_post.spec_games()[i].spec_id() == g0.spec_id()
        &&& games_post.spec_games()[i].spec_turn() == g0.spec_turn()
        &&& games_post.spec_games()[i].spec_board() == g0.spec_board()
    })
    &&& players_post.player_of(pid).game is None
    &&& outbox_post == outbox_pre.push(outbox_post.last())
}

impl GameService {
    /// Tears a match down: it leaves the registry and every member's
    /// game reference is cleared.
    pub fn remove_game(
        &mut self,
        players: &mut PlayerService,
        game_id: u32,
    ) -> (r: Result<(), GameError>)
        requires
            old(self).wf(),
            old(players).wf(),
        ensures
            final(self).wf(),
            final(players).wf(),
            final(self).spec_next_id() == old(self).spec_next_id(),
            match r {
                Ok(()) => {
                    let i = game_index_of(old(self).spec_games(), game_id);
                    &&& games_has(old(self).spec_games(), game_id)
                    &&& final(self).spec_games() == old(self).spec_games().remove(i)
                    &&& forall|pid: u32|
                        crate::game::queue_has(
                            game_of(old(self).spec_games(), game_id).spec_queue(),
                            pid,
                        ) ==> game_ref_is(*final(players), pid, None)
                },
                Err(e) => {
                    &&& e == GameError::GameNotFound
                    &&& !games_has(old(self).spec_games(), game_id)
                    &&& final(self).spec_games() == old(self).spec_games()
                    &&& final(players).players() == old(players).players()
                },
            },
    {
        let gi = match self.index_of(game_id) {
            Some(i) => i,
            None => {
                return Err(GameError::GameNotFound);
            },
        };
        proof {
            let i2 = game_index_of(self.spec_games(), game_id);
            assert(0 <= i2 < self.spec_games().len() && self.spec_games()[i2].spec_id()
                == game_id);
            assert(i2 == gi as int);
        }
        let game = self.games.remove(gi);
        let ids = all_ids(&game);
        let n = ids.len();
        let mut k: usize = 0;
        while k < n
            invariant
                k <= n,
                n == ids@.len(),
                players.wf(),
                forall|j: int| 0 <= j < k ==> game_ref_is(*players, #[trigger] ids@[j], None),
            decreases n - k,
        {
            let ghost pre = *players;
            players.set_player_game(ids[k], None);
            proof {
                assert forall|j: int| 0 <= j < k + 1 implies game_ref_is(
                    *players,
                    #[trigger] ids@[j],
                    None,
                ) by {
                    let id = ids@[j];
                    if players.has(id) {
                        let m = choose|m: int|
                            0 <= m < players.players().len() && (
                            #[trigger] players.players()[m]).id == id;
                        if pre.players()[m].id == ids@[k as int] {
                            players.lemma_player_of_index(m, id);
                        } else {
                            pre.lemma_player_of_index(m, id);
                            players.lemma_player_of_index(m, id);
                            if j == k {
                                assert(false);
                            }
                        }
                    }
                }
            }
            k = k + 1;
        }
        proof {
            assert forall|pid: u32|
                crate::game::queue_has(game.spec_queue(), pid) implies game_ref_is(
                *players,
                pid,
                None,
            ) by {
                let qi = choose|qi: int|
                    0 <= qi < game.spec_queue().len() && (#[trigger] game.spec_queue()[
                    qi]).player_id == pid;
                assert(ids@[qi] == pid);
            }
        }
        proof {
            assert forall|a: int, b: int|
                0 <= a < b < self.games@.len() implies (#[trigger] self.games@[a]).spec_id() != (
                #[trigger] self.games@[b]).spec_id() by {
                let a0 = if a < gi as int { a } else { a + 1 };
                let b0 = if b < gi as int { b } else { b + 1 };
                assert(old(self).spec_games()[a0].spec_id() != old(self).spec_games()[
                    b0].spec_id());
            }
        }
        Ok(())
    }

    /// Removes a player from their match, shrinking the rotation and
    /// telling the remaining players; an emptied match is torn down.
    /// Success and each error are owed exactly as the state decides:
    /// unregistered or not queued, no game reference, dangling game id.
    pub fn remove_player_from_game(
        &mut self,
        players: &mut PlayerService,
        player_id: u32,
        outbox: &mut Vec<Broadcast>,
    ) -> (r: Result<(), GameError>)
        requires
            old(self).wf(),
            old(players).wf(),
        ensures
            final(self).wf(),
            final(players).wf(),
            final(self).spec_next_id() == old(self).spec_next_id(),
            forall|id: u32| #[trigger] final(players).has(id) == old(players).has(id),
            match r {
                Ok(()) => left_game(
                    *old(players),
                    *final(players),
                    *old(self),
                    *final(self),
                    old(outbox)@,
                    final(outbox)@,
                    player_id,
                ),
                Err(e) => {
                    let gid = old(players).player_of(player_id).game->Some_0;
                    let g0 = game_of(old(self).spec_games(), gid);
                    &&& final(self).spec_games() == old(self).spec_games()
                    &&& final(players).players() == old(players).players()
                    &&& final(outbox)@ == old(outbox)@
                    &&& (e == GameError::PlayerNotFound || e == GameError::PlayerNotInGame || e
                        == GameError::GameNotFound)
                    &&& (e == GameError::PlayerNotFound <==> (!old(players).has(player_id) || (
                    old(players).has(player_id) && old(players).player_of(player_id).game is Some
                        && games_has(old(self).spec_games(), gid) && !crate::game::queue_has(
                        g0.spec_queue(),
                        player_id,
                    ))))
                    &&& (e == GameError::PlayerNotInGame <==> (old(players).has(player_id) && old(players).player_of(player_id).game is None))
                    &&& (e == GameError::GameNotFound <==> (old(players).has(player_id) && old(players).player_of(player_id).game is Some && !games_has(
                        old(self).spec_games(),
                        gid,
                    )))
                },
            },
    {
        let p = match players.get_player(player_id) {
            Some(p) => p,
            None => {
                return Err(GameError::PlayerNotFound);
            },
        };
        proof {
            let i = choose|i: int|
                0 <= i < players.players().len() && (#[trigger] players.players()[i]).id
                    == player_id;
            let j = choose|j: int|
                0 <= j < players.players().len() && (#[trigger] players.players()[j]).id
                    == player_id;
            assert(i == j);
        }
        let gid = match p.game {
            Some(g) => g,
            None => {
                return Err(GameError::PlayerNotInGame);
            },
        };
        let gi = match self.index_of(gid) {
            Some(i) => i,
            None => {
                return Err(GameError::GameNotFound);
            },
        };
        proof {
            let i2 = game_index_of(self.spec_games(), gid);
            assert(0 <= i2 < self.spec_games().len() && self.spec_games()[i2].spec_id() == gid);
            assert(i2 == gi as int);
        }
        if self.games[gi].find_player(player_id).is_none() {
            return Err(GameError::PlayerNotFound);
        }
        let mut game = self.games.remove(gi);
        let ghost g0 = game;
        let removed = game.remove_player(player_id);
        proof {
            assert(removed is Some);
            let qi = choose|qi: int|
                0 <= qi < g0.spec_queue().len() && removed->Some_0 == g0.spec_queue()[qi]
                    && removed->Some_0.player_id == player_id && game.spec_queue()
                    == g0.spec_queue().remove(qi);
            let qi2 = crate::game::queue_index_of(g0.spec_queue(), player_id);
            assert(0 <= qi2 < g0.spec_queue().len() && g0.spec_queue()[qi2].player_id
                == player_id);
            assert(qi2 == qi) by {
                if qi2 != qi {
                    assert(g0.spec_queue()[qi2].player_id != g0.spec_queue()[qi].player_id);
                }
            }
        }
        players.set_player_game(player_id, None);
        let remaining = all_ids(&game);
        let mut infos: Vec<PlayerInfo> = Vec::new();
        let mut k: usize = 0;
        let n = remaining.len();
        while k < n
            invariant
                k <= n,
                n == remaining@.len(),
            decreases n - k,
        {
            infos.push(PlayerInfo { id: remaining[k], name: String::new() });
            k = k + 1;
        }
        outbox.push(
            Broadcast {
                targets: remaining,
                data: ResponseData::GameBroadcast(
                    GameBroadcast {
                        event: GameEvent::Leave,
                        board: None,
                        players: Some(infos),
                        current_player: None,
                        next_player: None,
                        words: None,
                        cards: None,
                    },
                ),
            },
        );
        let emptied = game.player_count() == 0;
        if !emptied {
            self.games.insert(gi, game);
            proof {
                assert(final(self).spec_games() =~= old(self).spec_games().update(
                    gi as int,
                    final(self).spec_games()[gi as int],
                ));
                assert forall|a: int, b: int|
                    0 <= a < b < self.games@.len() implies (#[trigger] self.games@[a]).spec_id()
                    != (#[trigger] self.games@[b]).spec_id() by {
                    assert(old(self).spec_games()[a].spec_id() != old(self).spec_games()[
                        b].spec_id());
                }
            }
        } else {
            proof {
                assert(final(self).spec_games() =~= old(self).spec_games().remove(gi as int));
                assert forall|a: int, b: int|
                    0 <= a < b < self.games@.len() implies (#[trigger] self.games@[a]).spec_id()
                    != (#[trigger] self.games@[b]).spec_id() by {
                    let a0 = if a < gi as int { a } else { a + 1 };
                    let b0 = if b < gi as int { b } else { b + 1 };
                    assert(old(self).spec_games()[a0].spec_id() != old(self).spec_games()[
                        b0].spec_id());
                }
            }
        }
        proof {
            let i = choose|i: int|
                0 <= i < old(players).players().len() && (#[trigger] old(players).players()[
                    i]).id == player_id;
            assert(final(players).players()[i].id == player_id);
            assert(final(players).players()[i].game is None);
            let j = choose|j: int|
                0 <= j < final(players).players().len() && (#[trigger] final(players).players()[
                    j]).id == player_id;
            assert(j == i);
            assert(final(outbox)@ == old(outbox)@.push(final(outbox)@.last()));
            assert forall|id: u32| #[trigger] final(players).has(id) == old(players).has(id) by {
                if old(players).has(id) {
                    let m = choose|m: int|
                        0 <= m < old(players).players().len() && (#[trigger] old(players).players()[m]).id == id;
                    assert(final(players).players()[m].id == id);
                }
                if final(players).has(id) {
                    let m = choose|m: int|
                        0 <= m < final(players).players().len() && (#[trigger] final(players).players()[m]).id == id;
                    assert(old(players).players()[m].id == id);
                }
            }
        }
        Ok(())
    }
}


impl GameService {
    /// Marks a hand card used when its owner places it.
    pub fn take_card(
        &mut self,
        game_id: u32,
        player_id: u32,
        index: usize,
    ) -> (r: Result<Card, GameError>)
        requires
            old(self).wf(),
        ensures
            final(self).wf(),
            final(self).spec_next_id() == old(self).spec_next_id(),
            match r {
                Ok(c) => {
                    let i = game_index_of(old(self).spec_games(), game_id);
                    let g0 = game_of(old(self).spec_games(), game_id);
                    let qi = crate::game::queue_index_of(g0.spec_queue(), player_id);
                    let gp0 = crate::game::queue_player(g0.spec_queue(), player_id);
                    let g1 = final(self).spec_games()[i];
                    &&& games_has(old(self).spec_games(), game_id)
                    &&& crate::game::queue_has(g0.spec_queue(), player_id)
                    &&& index < gp0.cards@.len()
                    &&& c == (Card { ch: gp0.cards@[index as int].ch, used: true })
                    &&& final(self).spec_games() == old(self).spec_games().update(i, g1)
                    &&& g1.spec_queue() == g0.spec_queue().update(
                        qi,
                        g1.spec_queue()[qi],
                    )
                    &&& g1.spec_queue()[qi].cards@ == gp0.cards@.update(index as int, c)
                    &&& g1.spec_queue()[qi].player_id == player_id
                    &&& g1.spec_queue()[qi].has_shuffled == gp0.has_shuffled
                    &&& g1.spec_id() == g0.spec_id()
                    &&& g1.spec_turn() == g0.spec_turn()
                    &&& g1.spec_board() == g0.spec_board()
                    &&& g1.spec_backup() == g0.spec_backup()
                    &&& g1.spec_timer() == g0.spec_timer()
                    &&& g1.spec_token_counter() == g0.spec_token_counter()
                },
                Err(e) => {
                    &&& final(self).spec_games() == old(self).spec_games()
                    &&& (e == GameError::GameNotFound || e == GameError::PlayerNotFound || e
                        == GameError::CardNotFound)
                    &&& (e == GameError::GameNotFound <==> !games_has(
                        old(self).spec_games(),
                        game_id,
                    ))
                    &&& (e == GameError::PlayerNotFound <==> (games_has(
                        old(self).spec_games(),
                        game_id,
                    ) && !crate::game::queue_has(
                        game_of(old(self).spec_games(), game_id).spec_queue(),
                        player_id,
                    )))
                    &&& (e == GameError::CardNotFound <==> (games_has(
                        old(self).spec_games(),
                        game_id,
                    ) && crate::game::queue_has(
                        game_of(old(self).spec_games(), game_id).spec_queue(),
                        player_id,
                    ) && index >= crate::game::queue_player(
                        game_of(old(self).spec_games(), game_id).spec_queue(),
                        player_id,
                    ).cards@.len()))
                },
            },
    {
        let gi = match self.index_of(game_id) {
            Some(i) => i,
            None => {
                return Err(GameError::GameNotFound);
            },
        };
        proof {
            let i2 = game_index_of(self.spec_games(), game_id);
            assert(0 <= i2 < self.spec_games().len() && self.spec_games()[i2].spec_id()
                == game_id);
            assert(i2 == gi as int);
        }
        let qi = match self.games[gi].find_player(player_id) {
            Some(qi) => qi,
            None => {
                return Err(GameError::PlayerNotFound);
            },
        };
        proof {
            let q = self.spec_games()[gi as int].spec_queue();
            let qi2 = crate::game::queue_index_of(q, player_id);
            assert(0 <= qi2 < q.len() && q[qi2].player_id == player_id);
            assert(qi2 == qi as int);
        }
        if index >= self.games[gi].player_at(qi).get_cards().len() {
            return Err(GameError::CardNotFound);
        }
        let mut game = self.games.remove(gi);
        proof {
            let q = game.spec_queue();
            let qi2 = crate::game::queue_index_of(q, player_id);
            assert(0 <= qi2 < q.len() && q[qi2].player_id == player_id);
            assert(qi2 == qi as int);
        }
        let mut gp = game.player_at(qi).clone();
        let c = gp.take_card(index);
        game.set_player_at(qi, gp);
        self.games.insert(gi, game);
        proof {
            assert(self.games@ =~= old(self).spec_games().update(
                gi as int,
                self.games@[gi as int],
            ));
            assert forall|a: int, b: int|
                0 <= a < b < self.games@.len() implies (#[trigger] self.games@[a]).spec_id() != (
                #[trigger] self.games@[b]).spec_id() by {
                assert(old(self).spec_games()[a].spec_id() != old(self).spec_games()[b].spec_id());
            }
        }
        Ok(c)
    }

    /// Returns a cancelled placement's letter to its owner's hand.
    pub fn return_card(&mut self, game_id: u32, player_id: u32, ch: char) -> (r: Result<
        Vec<Card>,
        GameError,
    >)
        requires
            old(self).wf(),
        ensures
            final(self).wf(),
            final(self).spec_next_id() == old(self).spec_next_id(),
            match r {
                Ok(cards) => {
                    let i = game_index_of(old(self).spec_games(), game_id);
                    let g0 = game_of(old(self).spec_games(), game_id);
                    let qi = crate::game::queue_index_of(g0.spec_queue(), player_id);
                    let gp0 = crate::game::queue_player(g0.spec_queue(), player_id);
                    let g1 = final(self).spec_games()[i];
                    &&& games_has(old(self).spec_games(), game_id)
                    &&& crate::game::queue_has(g0.spec_queue(), player_id)
                    &&& final(self).spec_games() == old(self).spec_games().update(i, g1)
                    &&& g1.spec_queue() == g0.spec_queue().update(
                        qi,
                        g1.spec_queue()[qi],
                    )
                    &&& (match crate::game::first_used(gp0.cards@, ch, 0) {
                        Some(j) => g1.spec_queue()[qi].cards@ == gp0.cards@.update(
                            j,
                            Card { ch, used: false },
                        ),
                        None => g1.spec_queue()[qi].cards@ == gp0.cards@,
                    })
                    &&& g1.spec_queue()[qi].player_id == player_id
                    &&& g1.spec_queue()[qi].has_shuffled == gp0.has_shuffled
                    &&& cards@ == g1.spec_queue()[qi].cards@
                    &&& g1.spec_id() == g0.spec_id()
                    &&& g1.spec_turn() == g0.spec_turn()
                    &&& g1.spec_board() == g0.spec_board()
                    &&& g1.spec_backup() == g0.spec_backup()
                    &&& g1.spec_timer() == g0.spec_timer()
                    &&& g1.spec_token_counter() == g0.spec_token_counter()
                },
                Err(e) => {
                    &&& final(self).spec_games() == old(self).spec_games()
                    &&& (e == GameError::GameNotFound || e == GameError::PlayerNotFound)
                    &&& (e == GameError::GameNotFound <==> !games_has(
                        old(self).spec_games(),
                        game_id,
                    ))
                    &&& (e == GameError::PlayerNotFound <==> (games_has(
                        old(self).spec_games(),
                        game_id,
                    ) && !crate::game::queue_has(
                        game_of(old(self).spec_games(), game_id).spec_queue(),
                        player_id,
                    )))
                },
            },
    {
        let gi = match self.index_of(game_id) {
            Some(i) => i,
            None => {
                return Err(GameError::GameNotFound);
            },
        };
        proof {
            let i2 = game_index_of(self.spec_games(), game_id);
            assert(0 <= i2 < self.spec_games().len() && self.spec_games()[i2].spec_id()
                == game_id);
            assert(i2 == gi as int);
        }
        let qi = match self.games[gi].find_player(player_id) {
            Some(qi) => qi,
            None => {
                return Err(GameError::PlayerNotFound);
            },
        };
        let mut game = self.games.remove(gi);
        proof {
            let q = game.spec_queue();
            let qi2 = crate::game::queue_index_of(q, player_id);
            assert(0 <= qi2 < q.len() && q[qi2].player_id == player_id);
            assert(qi2 == qi as int);
        }
        let ghost gq0 = game;
        let mut gp = game.player_at(qi).clone();
        gp.return_cancel_card(ch);
        let cards = gp.get_cards();
        game.set_player_at(qi, gp);
        proof {
            assert forall|a: int, b: int|
                0 <= a < b < game.spec_queue().len() implies (#[trigger] game.spec_queue()[
                a]).player_id != (#[trigger] game.spec_queue()[b]).player_id by {
                assert(gq0.spec_queue()[a].player_id != gq0.spec_queue()[b].player_id);
                assert(game.spec_queue()[a].player_id == gq0.spec_queue()[a].player_id);
                assert(game.spec_queue()[b].player_id == gq0.spec_queue()[b].player_id);
            }
            assert forall|a: int| 0 <= a < game.spec_queue().len() implies (
            #[trigger] game.spec_queue()[a]).wf() by {
                assert(gq0.spec_queue()[a].wf());
                if a == qi as int {
                    assert(game.spec_queue()[a].cards@.len() == gq0.spec_queue()[
                        qi as int].cards@.len());
                }
            }
            assert(game.wf());
        }
        self.games.insert(gi, game);
        proof {
            assert(self.games@ =~= old(self).spec_games().update(
                gi as int,
                self.games@[gi as int],
            ));
            assert forall|a: int, b: int|
                0 <= a < b < self.games@.len() implies (#[trigger] self.games@[a]).spec_id() != (
                #[trigger] self.games@[b]).spec_id() by {
                assert(old(self).spec_games()[a].spec_id() != old(self).spec_games()[b].spec_id());
            }
        }
        Ok(cards)
    }
}


impl GameService {
    /// Overrides a match's turn counter (scaffolding for exercising the
    /// end-of-game threshold).
    pub fn set_game_turn(&mut self, game_id: u32, turn: u32) -> (r: Result<(), GameError>)
        requires
            old(self).wf(),
            turn >= 1,
        ensures
            final(self).wf(),
            final(self).spec_next_id() == old(self).spec_next_id(),
            match r {
                Ok(()) => {
                    let i = game_index_of(old(self).spec_games(), game_id);
                    &&& games_has(old(self).spec_games(), game_id)
                    &&& final(self).spec_games() == old(self).spec_games().update(
                        i,
                        final(self).spec_games()[i],
                    )
                    &&& final(self).spec_games()[i].spec_turn() == turn
                    &&& final(self).spec_games()[i].spec_id() == game_of(
                        old(self).spec_games(),
                        game_id,
                    ).spec_id()
                },
                Err(e) => e == GameError::GameNotFound && !games_has(
                    old(self).spec_games(),
                    game_id,
                ) && final(self).spec_games() == old(self).spec_games(),
            },
    {
        let gi = match self.index_of(game_id) {
            Some(i) => i,
            None => {
                return Err(GameError::GameNotFound);
            },
        };
        proof {
            let i2 = game_index_of(self.spec_games(), game_id);
            assert(0 <= i2 < self.spec_games().len() && self.spec_games()[i2].spec_id()
                == game_id);
            assert(i2 == gi as int);
        }
        let mut game = self.games.remove(gi);
        game.set_turn(turn);
        self.games.insert(gi, game);
        proof {
            assert(self.games@ =~= old(self).spec_games().update(
                gi as int,
                self.games@[gi as int],
            ));
            assert forall|a: int, b: int|
                0 <= a < b < self.games@.len() implies (#[trigger] self.games@[a]).spec_id() != (
                #[trigger] self.games@[b]).spec_id() by {
                assert(old(self).spec_games()[a].spec_id() != old(self).spec_games()[b].spec_id());
            }
        }
        Ok(())
    }
}

} // verus!
