//! One active match: the cyclic turn queue, the board with its committed
//! backup, and the cancellable per-turn timer slot.
//!
//! The timer slot holds at most one token. Arming hands out a fresh
//! token; whoever succeeds in taking the token out of the slot — the
//! explicit finish or the timeout task — is the one side that advances
//! the turn, so a race can never advance it twice.

use vstd::prelude::*;

use crate::board::{Board, Tile};
use crate::cards::{fresh_hand, hand_wf, Card};

verus! {

/// The game is destroyed when the turn counter passes this threshold.
pub const END_GAME_TURN: u32 = 16;

/// A player's in-game state: their hand and the once-per-turn shuffle flag.
#[derive(Debug)]
pub struct GamePlayer {
    pub player_id: u32,
    pub cards: Vec<Card>,
    pub has_shuffled: bool,
}

/// `gp` with its shuffle flag cleared, as `next_turn` leaves the rotated
/// player.
pub open spec fn reset_shuffle(gp: GamePlayer) -> GamePlayer {
    GamePlayer { has_shuffled: false, ..gp }
}

impl Clone for GamePlayer {
    /// A clone holds the same player id, hand and shuffle flag.
    fn clone(&self) -> (r: GamePlayer)
        ensures
            r.player_id == self.player_id,
            r.cards@ == self.cards@,
            r.has_shuffled == self.has_shuffled,
    {
        let n = self.cards.len();
        let mut cards: Vec<Card> = Vec::new();
        let mut i: usize = 0;
        while i < n
            invariant
                n == self.cards@.len(),
                i <= n,
                cards@ == self.cards@.take(i as int),
            decreases n - i,
        {
            cards.push(self.cards[i]);
            proof {
                assert(cards@ =~= self.cards@.take(i + 1));
            }
            i = i + 1;
        }
        proof {
            assert(cards@ =~= self.cards@);
        }
        GamePlayer { player_id: self.player_id, cards, has_shuffled: self.has_shuffled }
    }
}

/// First index at or after `i` of a used card with the given letter.
pub open spec fn first_used(cards: Seq<Card>, ch: char, i: int) -> Option<int>
    decreases cards.len() - i when 0 <= i
{
    if i >= cards.len() {
        None
    } else if cards[i].used && cards[i].ch == ch {
        Some(i)
    } else {
        first_used(cards, ch, i + 1)
    }
}

impl GamePlayer {
    pub open spec fn wf(&self) -> bool {
        hand_wf(self.cards@)
    }

    /// A new in-game player starts with a fresh hand and may shuffle once.
    pub fn new(player_id: u32) -> (gp: GamePlayer)
        ensures
            gp.player_id == player_id,
            fresh_hand(gp.cards@),
            !gp.has_shuffled,
            gp.wf(),
    {
        GamePlayer { player_id, cards: crate::cards::generate_hand(), has_shuffled: false }
    }

    pub fn get_has_shuffled(&self) -> (b: bool)
        ensures
            b == self.has_shuffled,
    {
        self.has_shuffled
    }

    pub fn set_has_shuffled(&mut self, v: bool)
        ensures
            *final(self) == (GamePlayer { has_shuffled: v, ..*old(self) }),
    {
        self.has_shuffled = v;
    }

    pub fn get_cards(&self) -> (r: Vec<Card>)
        ensures
            r@ == self.cards@,
    {
        let n = self.cards.len();
        let mut r: Vec<Card> = Vec::new();
        let mut i: usize = 0;
        while i < n
            invariant
                n == self.cards@.len(),
                i <= n,
                r@ == self.cards@.take(i as int),
            decreases n - i,
        {
            r.push(self.cards[i]);
            proof {
                assert(r@ =~= self.cards@.take(i + 1));
            }
            i = i + 1;
        }
        proof {
            assert(r@ =~= self.cards@);
        }
        r
    }

    pub fn get_card(&self, index: usize) -> (c: Card)
        requires
            index < self.cards@.len(),
        ensures
            c == self.cards@[index as int],
    {
        self.cards[index]
    }

    /// Marks the card at `index` used — the take side of the take/return
    /// toggle — and hands the used card back.
    pub fn take_card(&mut self, index: usize) -> (c: Card)
        requires
            index < old(self).cards@.len(),
        ensures
            c == (Card { ch: old(self).cards@[index as int].ch, used: true }),
            final(self).cards@ == old(self).cards@.update(index as int, c),
            final(self).player_id == old(self).player_id,
            final(self).has_shuffled == old(self).has_shuffled,
    {
        let ch = self.cards[index].ch;
        let c = Card { ch, used: true };
        self.cards[index] = c;
        c
    }

    /// Returns a cancelled placement's card to the hand: the first used
    /// card with that letter becomes unused; without one, nothing changes.
    pub fn return_cancel_card(&mut self, ch: char)
        ensures
            final(self).player_id == old(self).player_id,
            final(self).has_shuffled == old(self).has_shuffled,
            final(self).cards@.len() == old(self).cards@.len(),
            match first_used(old(self).cards@, ch, 0) {
                Some(j) => final(self).cards@ == old(self).cards@.update(
                    j,
                    Card { ch, used: false },
                ),
                None => final(self).cards@ == old(self).cards@,
            },
    {
        let n = self.cards.len();
        let mut i: usize = 0;
        while i < n
            invariant
                n == self.cards@.len(),
                i <= n,
                *self == *old(self),
                first_used(old(self).cards@, ch, 0) == first_used(old(self).cards@, ch, i as int),
            decreases n - i,
        {
            if self.cards[i].used && self.cards[i].ch == ch {
                self.cards[i] = Card { ch, used: false };
                return ;
            }
            i = i + 1;
        }
    }

    /// Discards the hand for a fresh draw and spends the turn's shuffle.
    pub fn get_new_card(&mut self) -> (r: Vec<Card>)
        ensures
            final(self).player_id == old(self).player_id,
            fresh_hand(final(self).cards@),
            final(self).has_shuffled,
            r@ == final(self).cards@,
    {
        self.cards = crate::cards::generate_hand();
        self.has_shuffled = true;
        self.get_cards()
    }
}

/// The ids of the queued players, in turn order.
pub open spec fn queue_ids(q: Seq<GamePlayer>) -> Seq<u32> {
    q.map(|i: int, gp: GamePlayer| gp.player_id)
}

/// The id is in the queue.
pub open spec fn queue_has(q: Seq<GamePlayer>, pid: u32) -> bool {
    exists|i: int| 0 <= i < q.len() && (#[trigger] q[i]).player_id == pid
}

/// The queue slot of the player with this id (meaningful under `queue_has`).
pub open spec fn queue_index_of(q: Seq<GamePlayer>, pid: u32) -> int {
    choose|i: int| 0 <= i < q.len() && (#[trigger] q[i]).player_id == pid
}

/// The queued player with this id (meaningful under `queue_has`).
pub open spec fn queue_player(q: Seq<GamePlayer>, pid: u32) -> GamePlayer {
    q[queue_index_of(q, pid)]
}

/// Under uniqueness, any slot holding `pid` is the queued player.
pub proof fn lemma_queue_player_at(q: Seq<GamePlayer>, i: int, pid: u32)
    requires
        ids_unique(q),
        0 <= i < q.len(),
        q[i].player_id == pid,
    ensures
        queue_has(q, pid),
        queue_player(q, pid) == q[i],
{
    assert(queue_has(q, pid));
    let j = queue_index_of(q, pid);
    assert(0 <= j < q.len() && q[j].player_id == pid);
    if j != i {
        assert(q[i].player_id != q[j].player_id);
    }
}

/// No player appears twice in the queue.
pub open spec fn ids_unique(q: Seq<GamePlayer>) -> bool {
    forall|i: int, j: int|
        0 <= i < j < q.len() ==> (#[trigger] q[i]).player_id != (#[trigger] q[j]).player_id
}

/// One round-robin rotation: the front player moves to the back with the
/// shuffle flag cleared.
pub open spec fn rotate_once(q: Seq<GamePlayer>) -> Seq<GamePlayer>
    recommends
        q.len() >= 1,
{
    q.subrange(1, q.len() as int) + seq![reset_shuffle(q[0])]
}

/// `n` rotations in a row.
pub open spec fn rotate_n(q: Seq<GamePlayer>, n: int) -> Seq<GamePlayer>
    decreases n when n >= 0
{
    if n <= 0 {
        q
    } else {
        rotate_once(rotate_n(q, n - 1))
    }
}

/// After `k` rotations the queue is the old tail from `k` onward,
/// followed by the first `k` players with their shuffle flags cleared.
proof fn lemma_rotate_n_shape(q: Seq<GamePlayer>, k: int)
    requires
        0 <= k <= q.len(),
    ensures
        rotate_n(q, k) =~= q.subrange(k, q.len() as int) + q.subrange(0, k).map(
            |i: int, gp: GamePlayer| reset_shuffle(gp),
        ),
    decreases k,
{
    let f = |i: int, gp: GamePlayer| reset_shuffle(gp);
    if k == 0 {
        assert(rotate_n(q, 0) =~= q.subrange(0, q.len() as int) + q.subrange(0, 0).map(f));
    } else {
        lemma_rotate_n_shape(q, k - 1);
        let prev = q.subrange(k - 1, q.len() as int) + q.subrange(0, k - 1).map(f);
        assert(rotate_n(q, k) == rotate_once(prev));
        assert(prev.len() == q.len());
        assert(prev[0] == q[k - 1]);
        assert(rotate_once(prev) =~= q.subrange(k, q.len() as int) + q.subrange(0, k).map(f)) by {
            assert forall|i: int| 0 <= i < q.len() implies rotate_once(prev)[i] == (q.subrange(
                k,
                q.len() as int,
            ) + q.subrange(0, k).map(f))[i] by {
                if i < q.len() - k {
                    assert(rotate_once(prev)[i] == prev[i + 1]);
                    assert(prev[i + 1] == q[k + i]);
                } else if i < q.len() - 1 {
                    assert(rotate_once(prev)[i] == prev[i + 1]);
                    assert(prev[i + 1] == f(i - (q.len() - k), q[i - (q.len() - k)]));
                } else {
                    assert(rotate_once(prev)[i] == reset_shuffle(prev[0]));
                }
            }
        }
    }
}

/// Round-robin fairness: after as many turns as there are players, the
/// rotation brings the queue back to its original order — the front
/// player is the original front player — with every shuffle flag
/// cleared. Together with `next_turn`'s contract (each call adds one to
/// the turn counter and rotates once), a full round of `n` calls raises
/// the counter by exactly `n` and restores the front.
pub proof fn lemma_full_round(q: Seq<GamePlayer>, n: int)
    requires
        n == q.len(),
        n >= 1,
    ensures
        rotate_n(q, n).len() == n,
        forall|i: int| 0 <= i < n ==> (#[trigger] rotate_n(q, n)[i]).player_id == q[i].player_id,
        rotate_n(q, n)[0].player_id == q[0].player_id,
{
    lemma_rotate_n_shape(q, n);
    let f = |i: int, gp: GamePlayer| reset_shuffle(gp);
    assert forall|i: int| 0 <= i < n implies (#[trigger] rotate_n(q, n)[i]).player_id
        == q[i].player_id by {
        assert(rotate_n(q, n)[i] == q.subrange(0, n).map(f)[i]);
        assert(q.subrange(0, n).map(f)[i] == reset_shuffle(q[i]));
    }
}

/// States linked by `next_turn`'s contract: each step adds one to the
/// counter and rotates the queue once.
pub open spec fn turn_chain(gs: Seq<Game>) -> bool {
    forall|k: int|
        0 <= k < gs.len() - 1 ==> ((#[trigger] gs[k]).spec_turn() < u32::MAX && gs[k
            + 1].spec_turn() == gs[k].spec_turn() + 1 && gs[k + 1].spec_queue() == rotate_once(
            gs[k].spec_queue(),
        ))
}

/// Along a chain, state `k` holds the `k`-fold rotation and a counter
/// raised by exactly `k`.
proof fn lemma_turn_chain_at(gs: Seq<Game>, k: int)
    requires
        turn_chain(gs),
        0 <= k < gs.len(),
    ensures
        gs[k].spec_queue() == rotate_n(gs[0].spec_queue(), k),
        gs[k].spec_turn() == gs[0].spec_turn() + k,
    decreases k,
{
    if k > 0 {
        lemma_turn_chain_at(gs, k - 1);
    }
}

/// The full-round law over actual calls: a chain of as many `next_turn`
/// steps as there are players brings the front player's id back to the
/// original front and raises the turn counter by exactly that many.
pub proof fn lemma_full_round_of_calls(gs: Seq<Game>)
    requires
        turn_chain(gs),
        gs.len() >= 2,
        gs[0].spec_queue().len() == gs.len() - 1,
    ensures
        gs.last().spec_turn() == gs[0].spec_turn() + gs[0].spec_queue().len(),
        gs.last().spec_queue().len() == gs[0].spec_queue().len(),
        gs.last().spec_queue()[0].player_id == gs[0].spec_queue()[0].player_id,
{
    let n = gs.len() - 1;
    lemma_turn_chain_at(gs, n);
    lemma_full_round(gs[0].spec_queue(), n);
}

/// One active match.
#[derive(Debug)]
pub struct Game {
    id: u32,
    turn: u32,
    queue: Vec<GamePlayer>,
    board: Board,
    board_backup: Board,
    timer: Option<u64>,
    next_timer_token: u64,
}

impl Game {
    pub closed spec fn spec_id(&self) -> u32 {
        self.id
    }

    pub closed spec fn spec_turn(&self) -> u32 {
        self.turn
    }

    pub closed spec fn spec_queue(&self) -> Seq<GamePlayer> {
        self.queue@
    }

    pub closed spec fn spec_board(&self) -> Board {
        self.board
    }

    pub closed spec fn spec_backup(&self) -> Board {
        self.board_backup
    }

    /// The armed timer token, if a turn timer is live.
    pub closed spec fn spec_timer(&self) -> Option<u64> {
        self.timer
    }

    /// The next token to be handed out; every past token is below it.
    pub closed spec fn spec_token_counter(&self) -> u64 {
        self.next_timer_token
    }

    pub open spec fn wf(&self) -> bool {
        &&& self.spec_board().wf()
        &&& self.spec_backup().wf()
        &&& ids_unique(self.spec_queue())
        &&& forall|i: int| 0 <= i < self.spec_queue().len() ==> (#[trigger] self.spec_queue()[i]).wf()
        &&& match self.spec_timer() {
            Some(t) => t < self.spec_token_counter(),
            None => true,
        }
        &&& self.spec_turn() >= 1
    }

    /// A new match: turn one, fresh hands in roster order, empty board,
    /// no timer armed yet.
    pub fn new(id: u32, player_ids: &Vec<u32>) -> (g: Game)
        requires
            forall|i: int, j: int|
                0 <= i < j < player_ids@.len() ==> player_ids@[i] != player_ids@[j],
        ensures
            g.wf(),
            g.spec_id() == id,
            g.spec_turn() == 1,
            queue_ids(g.spec_queue()) == player_ids@,
            forall|i: int|
                0 <= i < g.spec_queue().len() ==> fresh_hand((#[trigger] g.spec_queue()[i]).cards@)
                    && !g.spec_queue()[i].has_shuffled,
            g.spec_board().is_empty_board(),
            g.spec_backup().is_empty_board(),
            g.spec_timer() is None,
            g.spec_token_counter() == 0,
    {
        let n = player_ids.len();
        let mut queue: Vec<GamePlayer> = Vec::new();
        let mut i: usize = 0;
        while i < n
            invariant
                n == player_ids@.len(),
                i <= n,
                queue@.len() == i,
                forall|j: int, k: int|
                    0 <= j < k < player_ids@.len() ==> player_ids@[j] != player_ids@[k],
                forall|j: int|
                    0 <= j < i ==> (#[trigger] queue@[j]).player_id == player_ids@[j] && fresh_hand(
                        queue@[j].cards@,
                    ) && !queue@[j].has_shuffled && queue@[j].wf(),
            decreases n - i,
        {
            queue.push(GamePlayer::new(player_ids[i]));
            i = i + 1;
        }
        let g = Game {
            id,
            turn: 1,
            queue,
            board: Board::new(),
            board_backup: Board::new(),
            timer: None,
            next_timer_token: 0,
        };
        proof {
            assert(queue_ids(g.spec_queue()) =~= player_ids@);
        }
        g
    }

    pub fn get_id(&self) -> (i: u32)
        ensures
            i == self.spec_id(),
    {
        self.id
    }

    pub fn get_turns(&self) -> (t: u32)
        ensures
            t == self.spec_turn(),
    {
        self.turn
    }

    /// Overrides the turn counter, keeping every other field as it was
    /// (useful for driving a match to the end-of-game threshold).
    pub fn set_turn(&mut self, turn: u32)
        requires
            turn >= 1,
        ensures
            old(self).wf() ==> final(self).wf(),
            final(self).spec_turn() == turn,
            final(self).spec_queue() == old(self).spec_queue(),
            final(self).spec_board() == old(self).spec_board(),
            final(self).spec_backup() == old(self).spec_backup(),
            final(self).spec_timer() == old(self).spec_timer(),
            final(self).spec_token_counter() == old(self).spec_token_counter(),
            final(self).spec_id() == old(self).spec_id(),
    {
        self.turn = turn;
    }

    /// The number of players still in the match.
    pub fn player_count(&self) -> (n: usize)
        ensures
            n == self.spec_queue().len(),
    {
        self.queue.len()
    }

    /// The current turn holder sits at the queue's front.
    pub fn get_player_in_this_turn(&self) -> (gp: &GamePlayer)
        requires
            self.spec_queue().len() > 0,
        ensures
            *gp == self.spec_queue()[0],
    {
        &self.queue[0]
    }

    /// Advances the round-robin: the counter grows by one and the front
    /// player, shuffle flag cleared, moves to the back.
    pub fn next_turn(&mut self) -> (t: u32)
        requires
            old(self).spec_queue().len() > 0,
            old(self).spec_turn() < u32::MAX,
        ensures
            t == final(self).spec_turn(),
            final(self).spec_turn() == old(self).spec_turn() + 1,
            final(self).spec_queue() == rotate_once(old(self).spec_queue()),
            final(self).spec_board() == old(self).spec_board(),
            final(self).spec_backup() == old(self).spec_backup(),
            final(self).spec_timer() == old(self).spec_timer(),
            final(self).spec_token_counter() == old(self).spec_token_counter(),
            final(self).spec_id() == old(self).spec_id(),
            old(self).wf() ==> final(self).wf(),
    {
        self.turn = self.turn + 1;
        let mut front = self.queue.remove(0);
        front.set_has_shuffled(false);
        self.queue.push(front);
        proof {
            assert(self.queue@ =~= rotate_once(old(self).spec_queue()));
            if old(self).wf() {
                let q0 = old(self).spec_queue();
                assert forall|i: int, j: int|
                    0 <= i < j < self.queue@.len() implies (#[trigger] self.queue@[i]).player_id
                    != (#[trigger] self.queue@[j]).player_id by {
                    if j < q0.len() - 1 {
                        assert(q0[i + 1].player_id != q0[j + 1].player_id);
                    } else {
                        assert(self.queue@[j].player_id == q0[0].player_id);
                        assert(q0[0].player_id != q0[i + 1].player_id);
                    }
                }
            }
        }
        self.turn
    }

    /// Peeks the next turn's holder: none once the end-of-game turn is
    /// reached; the same player again when alone; else the second in line.
    pub fn get_next_turn_player(&self) -> (gp: Option<&GamePlayer>)
        requires
            self.spec_queue().len() > 0,
        ensures
            match gp {
                Some(p) => self.spec_turn() != END_GAME_TURN && (if self.spec_queue().len() == 1 {
                    *p == self.spec_queue()[0]
                } else {
                    *p == self.spec_queue()[1]
                }),
                None => self.spec_turn() == END_GAME_TURN,
            },
    {
        if self.turn == END_GAME_TURN {
            None
        } else if self.queue.len() == 1 {
            Some(&self.queue[0])
        } else {
            Some(&self.queue[1])
        }
    }

    /// Looks a player up by id.
    pub fn find_player(&self, pid: u32) -> (r: Option<usize>)
        ensures
            match r {
                Some(i) => i < self.spec_queue().len() && self.spec_queue()[i as int].player_id
                    == pid,
                None => forall|i: int|
                    0 <= i < self.spec_queue().len() ==> (#[trigger] self.spec_queue()[i]).player_id
                        != pid,
            },
    {
        let n = self.queue.len();
        let mut i: usize = 0;
        while i < n
            invariant
                n == self.queue@.len(),
                i <= n,
                forall|j: int| 0 <= j < i ==> (#[trigger] self.queue@[j]).player_id != pid,
            decreases n - i,
        {
            if self.queue[i].player_id == pid {
                return Some(i);
            }
            i = i + 1;
        }
        None
    }

    /// The player at a queue slot.
    pub fn player_at(&self, i: usize) -> (gp: &GamePlayer)
        requires
            i < self.spec_queue().len(),
        ensures
            *gp == self.spec_queue()[i as int],
    {
        &self.queue[i]
    }

    /// Removes a player from the rotation, handing their state back.
    pub fn remove_player(&mut self, pid: u32) -> (r: Option<GamePlayer>)
        ensures
            final(self).spec_turn() == old(self).spec_turn(),
            final(self).spec_board() == old(self).spec_board(),
            final(self).spec_backup() == old(self).spec_backup(),
            final(self).spec_timer() == old(self).spec_timer(),
            final(self).spec_token_counter() == old(self).spec_token_counter(),
            final(self).spec_id() == old(self).spec_id(),
            match r {
                Some(gp) => exists|i: int|
                    0 <= i < old(self).spec_queue().len() && gp == old(self).spec_queue()[i]
                        && gp.player_id == pid && final(self).spec_queue()
                        == old(self).spec_queue().remove(i),
                None => final(self).spec_queue() == old(self).spec_queue() && (forall|i: int|
                    0 <= i < old(self).spec_queue().len()
                        ==> (#[trigger] old(self).spec_queue()[i]).player_id != pid),
            },
            old(self).wf() ==> final(self).wf(),
    {
        let found = self.find_player(pid);
        match found {
            Some(i) => {
                let gp = self.queue.remove(i);
                proof {
                    if old(self).wf() {
                        let q0 = old(self).spec_queue();
                        assert forall|a: int, b: int|
                            0 <= a < b < self.queue@.len() implies (
                            #[trigger] self.queue@[a]).player_id != (
                            #[trigger] self.queue@[b]).player_id by {
                            let a0 = if a < i as int { a } else { a + 1 };
                            let b0 = if b < i as int { b } else { b + 1 };
                            assert(self.queue@[a] == q0[a0] && self.queue@[b] == q0[b0]);
                        }
                    }
                }
                Some(gp)
            },
            None => None,
        }
    }

    /// Replaces the player at a slot (the locked-accessor path for
    /// mutating one player's state in place).
    pub fn set_player_at(&mut self, i: usize, gp: GamePlayer)
        requires
            i < old(self).spec_queue().len(),
        ensures
            final(self).spec_queue() == old(self).spec_queue().update(i as int, gp),
            final(self).spec_turn() == old(self).spec_turn(),
            final(self).spec_board() == old(self).spec_board(),
            final(self).spec_backup() == old(self).spec_backup(),
            final(self).spec_timer() == old(self).spec_timer(),
            final(self).spec_token_counter() == old(self).spec_token_counter(),
            final(self).spec_id() == old(self).spec_id(),
    {
        let _ = self.queue.remove(i);
        self.queue.insert(i, gp);
        proof {
            assert(self.queue@ =~= old(self).spec_queue().update(i as int, gp));
        }
    }

    /// A read-only view of the board.
    pub fn get_board(&self) -> (b: &Board)
        ensures
            *b == self.spec_board(),
    {
        &self.board
    }

    /// A read-only view of the last committed snapshot.
    pub fn get_board_backup(&self) -> (b: &Board)
        ensures
            *b == self.spec_backup(),
    {
        &self.board_backup
    }

    /// Writes one board cell.
    pub fn set_cell(&mut self, r: usize, c: usize, t: Option<Tile>)
        requires
            old(self).spec_board().wf(),
            r < 26,
            c < 26,
        ensures
            final(self).spec_board().wf(),
            final(self).spec_board().cell(r as int, c as int) == t,
            forall|r2: int, c2: int|
                0 <= r2 < 26 && 0 <= c2 < 26 && !(r2 == r as int && c2 == c as int)
                    ==> final(self).spec_board().cell(r2, c2) == old(self).spec_board().cell(
                    r2,
                    c2,
                ),
            final(self).spec_queue() == old(self).spec_queue(),
            final(self).spec_turn() == old(self).spec_turn(),
            final(self).spec_backup() == old(self).spec_backup(),
            final(self).spec_timer() == old(self).spec_timer(),
            final(self).spec_token_counter() == old(self).spec_token_counter(),
            final(self).spec_id() == old(self).spec_id(),
            old(self).wf() ==> final(self).wf(),
    {
        self.board.set(r, c, t);
    }

    /// Snapshots the committed board for a later rollback.
    pub fn backup_board(&mut self)
        ensures
            final(self).spec_backup().grid() == old(self).spec_board().grid(),
            final(self).spec_board() == old(self).spec_board(),
            final(self).spec_queue() == old(self).spec_queue(),
            final(self).spec_turn() == old(self).spec_turn(),
            final(self).spec_timer() == old(self).spec_timer(),
            final(self).spec_token_counter() == old(self).spec_token_counter(),
            final(self).spec_id() == old(self).spec_id(),
            old(self).wf() ==> final(self).wf(),
    {
        self.board_backup = self.board.clone();
    }

    /// Rolls the board back to the last committed snapshot.
    pub fn restore_board(&mut self)
        ensures
            final(self).spec_board().grid() == old(self).spec_backup().grid(),
            final(self).spec_backup() == old(self).spec_backup(),
            final(self).spec_queue() == old(self).spec_queue(),
            final(self).spec_turn() == old(self).spec_turn(),
            final(self).spec_timer() == old(self).spec_timer(),
            final(self).spec_token_counter() == old(self).spec_token_counter(),
            final(self).spec_id() == old(self).spec_id(),
            old(self).wf() ==> final(self).wf(),
    {
        self.board = self.board_backup.clone();
    }

    /// The counter from which the next timer token would be drawn.
    pub fn token_counter_value(&self) -> (c: u64)
        ensures
            c == self.spec_token_counter(),
    {
        self.next_timer_token
    }

    /// Arms the turn timer, handing out a fresh token. Any token armed
    /// before is simply displaced: a holder of an old token can no longer
    /// claim the slot.
    pub fn arm_timer(&mut self) -> (tok: u64)
        requires
            old(self).spec_token_counter() < u64::MAX,
        ensures
            tok == old(self).spec_token_counter(),
            final(self).spec_timer() == Some(tok),
            final(self).spec_token_counter() == old(self).spec_token_counter() + 1,
            final(self).spec_queue() == old(self).spec_queue(),
            final(self).spec_turn() == old(self).spec_turn(),
            final(self).spec_board() == old(self).spec_board(),
            final(self).spec_backup() == old(self).spec_backup(),
            final(self).spec_id() == old(self).spec_id(),
            old(self).wf() ==> final(self).wf(),
    {
        let tok = self.next_timer_token;
        self.next_timer_token = self.next_timer_token + 1;
        self.timer = Some(tok);
        tok
    }

    /// Takes whatever timer is armed out of the slot; reports whether
    /// there was one. The explicit-finish side of the race.
    pub fn cancel_timeout_task(&mut self) -> (had: bool)
        ensures
            had == (old(self).spec_timer() is Some),
            final(self).spec_timer() is None,
            final(self).spec_queue() == old(self).spec_queue(),
            final(self).spec_turn() == old(self).spec_turn(),
            final(self).spec_board() == old(self).spec_board(),
            final(self).spec_backup() == old(self).spec_backup(),
            final(self).spec_token_counter() == old(self).spec_token_counter(),
            final(self).spec_id() == old(self).spec_id(),
            old(self).wf() ==> final(self).wf(),
    {
        let had = self.timer.is_some();
        self.timer = None;
        had
    }

    /// The armed timer token, if any — what the embedding runtime reads
    /// to know which sleeper task is live.
    pub fn get_timer(&self) -> (t: Option<u64>)
        ensures
            t == self.spec_timer(),
    {
        self.timer
    }

    /// Whether the armed timer is exactly the caller's token.
    pub fn timer_matches(&self, tok: u64) -> (b: bool)
        ensures
            b == (self.spec_timer() == Some(tok)),
    {
        match self.timer {
            Some(t) => t == tok,
            None => false,
        }
    }

    /// Takes the timer out of the slot only when the caller's token is
    /// the one armed; the timeout side of the race. A stale token — one
    /// displaced by a newer arm or already taken — claims nothing.
    pub fn claim_timer(&mut self, tok: u64) -> (won: bool)
        ensures
            won == (old(self).spec_timer() == Some(tok)),
            final(self).spec_timer() == (if won {
                None::<u64>
            } else {
                old(self).spec_timer()
            }),
            final(self).spec_queue() == old(self).spec_queue(),
            final(self).spec_turn() == old(self).spec_turn(),
            final(self).spec_board() == old(self).spec_board(),
            final(self).spec_backup() == old(self).spec_backup(),
            final(self).spec_token_counter() == old(self).spec_token_counter(),
            final(self).spec_id() == old(self).spec_id(),
            old(self).wf() ==> final(self).wf(),
    {
        let won = match self.timer {
            Some(t) => t == tok,
            None => false,
        };
        if won {
            self.timer = None;
        }
        won
    }
}

} // verus!
