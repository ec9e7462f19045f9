use crate::clock::{current_timestamp, elapsed_over, is_elapsed_over, AFK_CC_TIMER, EXPIRY_BUFFER};
use crate::cpu::{cpu_may_choose, CpuPlayer, CPU};
use crate::game::{lemma_h_wall_keeps_order, lemma_same_walls, lemma_v_wall_keeps_order, Quoridor, QuoridorView};
use crate::messages::{same_text, texts_of, PlayerMove, PlayerMoveResult};
use vstd::prelude::*;

verus! {

/// The state of a match as plain values.
pub struct QuoridorMatchView {
    pub timestamp: i64,
    pub up_player: Seq<char>,
    pub down_player: Seq<char>,
    pub game: QuoridorView,
    pub turn: usize,
    pub current: Seq<char>,
    pub winner: Option<Seq<char>>,
    pub only_player_moves_allowed: bool,
}

impl QuoridorMatchView {
    /// A match in order: the board is in order, one of the two players is to
    /// move, a winner is one of the two players, as long as nobody has won
    /// neither token stands in its goal row, and only token moves are allowed
    /// exactly when both tokens stand on one cell.
    pub open spec fn inv(self) -> bool {
        &&& self.game.inv()
        &&& (self.current == self.up_player || self.current == self.down_player)
        &&& (self.winner is Some ==> self.winner->0 == self.up_player || self.winner->0 == self.down_player)
        &&& (self.winner is None ==> self.game.up_player.0 != 8 && self.game.down_player.0 != 0)
        &&& self.only_player_moves_allowed == (self.game.up_player == self.game.down_player)
    }

    /// The player who is not `player`: the down player for the up player, the
    /// up player for anyone else.
    pub open spec fn other(self, player: Seq<char>) -> Seq<char> {
        if player == self.up_player {
            self.down_player
        } else {
            self.up_player
        }
    }

    /// The board after `player` has moved a token to `to`, where the rules
    /// allow the move. The up player moves the up token, anyone else the down
    /// token.
    pub open spec fn moved(self, player: Seq<char>, to: (usize, usize)) -> Option<QuoridorView> {
        let game = self.game;
        if player == self.up_player {
            if game.legal_move(game.up_player, game.down_player, to) {
                Some(QuoridorView { up_player: to, ..game })
            } else {
                None
            }
        } else {
            if game.legal_move(game.down_player, game.up_player, to) {
                Some(QuoridorView { down_player: to, ..game })
            } else {
                None
            }
        }
    }

    /// Whether `player` has no wall left to place.
    pub open spec fn out_of_walls(self, player: Seq<char>) -> bool {
        ||| (player == self.up_player && self.game.up_player_free_walls == 0)
        ||| (player == self.down_player && self.game.down_player_free_walls == 0)
    }

    /// The board after `player` has placed a wall at `wall`, with one wall
    /// less left for that player, where walls are allowed at this point, the
    /// player has one left and the wall may be placed.
    pub open spec fn walled(self, player: Seq<char>, wall: (usize, usize), horizontal: bool) -> Option<
        QuoridorView,
    > {
        let game = self.game;
        let allowed = if horizontal {
            game.h_wall_allowed(wall)
        } else {
            game.v_wall_allowed(wall)
        };
        if self.only_player_moves_allowed || self.out_of_walls(player) || !allowed {
            None
        } else {
            let placed = if horizontal {
                game.with_h_wall(wall)
            } else {
                game.with_v_wall(wall)
            };
            if player == self.up_player {
                Some(QuoridorView { up_player_free_walls: (game.up_player_free_walls - 1) as usize, ..placed })
            } else {
                Some(QuoridorView { down_player_free_walls: (game.down_player_free_walls - 1) as usize, ..placed })
            }
        }
    }

    /// The match after the turn in which its board or its winner changed has
    /// been closed at the time `now`. The time is noted and the moves are
    /// counted. Where the match is won or both tokens stand on one cell, the
    /// player to move stays the same, and in the second case only token moves
    /// are allowed next. Otherwise the other player is to move.
    pub open spec fn settled(self, now: i64) -> QuoridorMatchView {
        let same_cell = self.game.up_player == self.game.down_player;
        QuoridorMatchView {
            timestamp: now,
            turn: if self.turn < usize::MAX {
                (self.turn + 1) as usize
            } else {
                self.turn
            },
            current: if self.winner is Some || same_cell {
                self.current
            } else {
                self.other(self.current)
            },
            only_player_moves_allowed: same_cell,
            ..self
        }
    }

    /// The match after a move of the player to move was accepted and left
    /// the board `game`; `won` says whether the move won the match for the
    /// mover.
    pub open spec fn accepted(self, game: QuoridorView, now: i64, won: bool) -> QuoridorMatchView {
        QuoridorMatchView {
            game,
            winner: if won {
                Some(self.current)
            } else {
                None
            },
            ..self
        }.settled(now)
    }

    /// What one submitted move makes of the match, and the answer to it.
    ///
    /// A finished match answers every move with `GameFinished`. A concession
    /// by one of the two players ends the match at once in favour of the
    /// other, whoever is to move, and is answered with `GameFinished`; from
    /// anyone else it is answered with `NotFound`. A token move or a wall
    /// from anyone but the player to move is answered with `WrongTurn`, one
    /// that the rules do not allow with `Disallowed`. Only an accepted move
    /// or a concession changes the match.
    pub open spec fn play(self, player_move: PlayerMove, player: Seq<char>, now: i64) -> (
        QuoridorMatchView,
        PlayerMoveResult,
    ) {
        if self.winner is Some {
            (self, PlayerMoveResult::GameFinished)
        } else {
            match player_move {
                PlayerMove::Concede => {
                    if player == self.up_player {
                        (QuoridorMatchView { winner: Some(self.down_player), ..self }, PlayerMoveResult::GameFinished)
                    } else if player == self.down_player {
                        (QuoridorMatchView { winner: Some(self.up_player), ..self }, PlayerMoveResult::GameFinished)
                    } else {
                        (self, PlayerMoveResult::NotFound)
                    }
                },
                PlayerMove::QuoridorMove { row, col } => {
                    if player != self.current {
                        (self, PlayerMoveResult::WrongTurn)
                    } else {
                        match self.moved(player, (row, col)) {
                            Some(game) => {
                                let goal_row: usize = if player == self.up_player {
                                    8
                                } else {
                                    0
                                };
                                (self.accepted(game, now, row == goal_row), PlayerMoveResult::Accepted)
                            },
                            None => (self, PlayerMoveResult::Disallowed),
                        }
                    }
                },
                PlayerMove::QuoridorWallH { row, col } => {
                    if player != self.current {
                        (self, PlayerMoveResult::WrongTurn)
                    } else {
                        match self.walled(player, (row, col), true) {
                            Some(game) => (self.accepted(game, now, false), PlayerMoveResult::Accepted),
                            None => (self, PlayerMoveResult::Disallowed),
                        }
                    }
                },
                PlayerMove::QuoridorWallV { row, col } => {
                    if player != self.current {
                        (self, PlayerMoveResult::WrongTurn)
                    } else {
                        match self.walled(player, (row, col), false) {
                            Some(game) => (self.accepted(game, now, false), PlayerMoveResult::Accepted),
                            None => (self, PlayerMoveResult::Disallowed),
                        }
                    }
                },
            }
        }
    }

    /// Whether the computer is to move.
    pub open spec fn cpu_to_move(self) -> bool {
        self.winner is None && self.current == CPU@
    }

    /// Whether `after` is what one move of the computer makes of the match,
    /// `accepted` saying whether the move was taken.
    pub open spec fn cpu_answer(self, after: QuoridorMatchView, accepted: bool, now: i64) -> bool {
        exists|coin: usize, chosen: PlayerMove|
            coin <= 1 && #[trigger] cpu_may_choose(self.game, coin, self.only_player_moves_allowed, chosen) && (
            after,
            accepted,
        ) == {
                let answer = self.play(chosen, CPU@, now);
                (answer.0, answer.1 == PlayerMoveResult::Accepted)
            }
    }

    /// Whether `after` is what the computer's turn makes of the match: nothing
    /// where the computer is not to move; else one move, and one more where
    /// the first was taken and left the computer to move, as it does when it
    /// lands on the opponent's cell.
    pub open spec fn cpu_turn(self, after: QuoridorMatchView, now: i64) -> bool {
        if !self.cpu_to_move() {
            after == self
        } else {
            exists|mid: QuoridorMatchView, accepted: bool| #[trigger]
                self.cpu_answer(mid, accepted, now) && if accepted && mid.cpu_to_move() {
                    exists|again: bool| #[trigger] mid.cpu_answer(after, again, now)
                } else {
                    after == mid
                }
        }
    }

    /// Whether the match has been silent for longer than the grace window at
    /// the time `now`.
    pub open spec fn timed_out(self, now: i64) -> bool {
        elapsed_over(self.timestamp, now, AFK_CC_TIMER)
    }

    /// Whether the match has been silent for longer than the grace window and
    /// the buffer after it at the time `now`.
    pub open spec fn expired(self, now: i64) -> bool {
        elapsed_over(self.timestamp, now, (AFK_CC_TIMER + EXPIRY_BUFFER) as i64)
    }

    /// What a look at the clock makes of the match: where it has timed out,
    /// the player to move concedes.
    pub open spec fn guarded(self, now: i64) -> QuoridorMatchView {
        if self.timed_out(now) {
            self.play(PlayerMove::Concede, self.current, now).0
        } else {
            self
        }
    }
}

/// One match: the board, who plays which side, who is to move, who has won,
/// and when the last move was made.
#[derive(Debug)]
pub struct QuoridorMatch {
    timestamp: i64,
    up_player: String,
    down_player: String,
    game: Quoridor,
    turn: usize,
    current: String,
    winner: Option<String>,
    only_player_moves_allowed: bool,
}

impl View for QuoridorMatch {
    type V = QuoridorMatchView;

    closed spec fn view(&self) -> QuoridorMatchView {
        QuoridorMatchView {
            timestamp: self.timestamp,
            up_player: self.up_player@,
            down_player: self.down_player@,
            game: self.game@,
            turn: self.turn,
            current: self.current@,
            winner: match self.winner {
                Some(name) => Some(name@),
                None => None,
            },
            only_player_moves_allowed: self.only_player_moves_allowed,
        }
    }
}

/// An accepted move on a match in order leaves a match in order, as long as
/// the new board is in order and `won` says whether the mover's token has
/// reached its goal row.
proof fn lemma_accepted_keeps_order(before: QuoridorMatchView, game: QuoridorView, now: i64, won: bool)
    requires
        before.inv(),
        before.winner is None,
        game.inv(),
        !won ==> game.up_player.0 != 8 && game.down_player.0 != 0,
    ensures
        before.accepted(game, now, won).inv(),
{
}

/// A move on a match in order leaves a match in order.
pub proof fn lemma_play_keeps_order(before: QuoridorMatchView, player_move: PlayerMove, player: Seq<char>, now: i64)
    requires
        before.inv(),
    ensures
        before.play(player_move, player, now).0.inv(),
{
    let game = before.game;
    if before.winner is None {
        match player_move {
            PlayerMove::Concede => {},
            PlayerMove::QuoridorMove { row, col } => {
                if player == before.current && before.moved(player, (row, col)) is Some {
                    let after = before.moved(player, (row, col))->0;
                    if player == before.up_player {
                        crate::game::lemma_move_keeps_path(game, game.up_player, game.down_player, (row, col), 8);
                        lemma_same_walls(game, after, (row, col), 8);
                        lemma_same_walls(game, after, game.down_player, 0);
                    } else {
                        crate::game::lemma_move_keeps_path(game, game.down_player, game.up_player, (row, col), 0);
                        lemma_same_walls(game, after, (row, col), 0);
                        lemma_same_walls(game, after, game.up_player, 8);
                    }
                    let goal_row: usize = if player == before.up_player {
                        8
                    } else {
                        0
                    };
                    lemma_accepted_keeps_order(before, after, now, row == goal_row);
                }
            },
            PlayerMove::QuoridorWallH { row, col } => {
                if player == before.current && before.walled(player, (row, col), true) is Some {
                    let after = before.walled(player, (row, col), true)->0;
                    lemma_h_wall_keeps_order(game, (row, col));
                    lemma_same_walls(game.with_h_wall((row, col)), after, game.up_player, 8);
                    lemma_same_walls(game.with_h_wall((row, col)), after, game.down_player, 0);
                    lemma_accepted_keeps_order(before, after, now, false);
                }
            },
            PlayerMove::QuoridorWallV { row, col } => {
                if player == before.current && before.walled(player, (row, col), false) is Some {
                    let after = before.walled(player, (row, col), false)->0;
                    lemma_v_wall_keeps_order(game, (row, col));
                    lemma_same_walls(game.with_v_wall((row, col)), after, game.up_player, 8);
                    lemma_same_walls(game.with_v_wall((row, col)), after, game.down_player, 0);
                    lemma_accepted_keeps_order(before, after, now, false);
                }
            },
        }
    }
}


impl QuoridorMatchView {
    /// Whether `game` is the board at the start of a match: the tokens in
    /// the middle of their home rows, nine walls each, none placed.
    pub open spec fn fresh_board(game: QuoridorView) -> bool {
        &&& game.up_player == (0usize, 4usize)
        &&& game.down_player == (8usize, 4usize)
        &&& game.up_player_free_walls == 9
        &&& game.down_player_free_walls == 9
        &&& game.vertical_walls.len() == 0
        &&& game.horizontal_walls.len() == 0
    }

    /// Whether this is the match that the players of `player_list` begin at
    /// the time `now`: the first plays up and moves first, the second plays
    /// down, and where there is no second the computer does.
    pub open spec fn begins(self, player_list: Seq<Seq<char>>, now: i64) -> bool {
        &&& self.timestamp == now
        &&& self.up_player == player_list[0]
        &&& self.down_player == if player_list.len() >= 2 {
            player_list[1]
        } else {
            CPU@
        }
        &&& self.current == player_list[0]
        &&& self.turn == 0
        &&& self.winner is None
        &&& !self.only_player_moves_allowed
        &&& Self::fresh_board(self.game)
    }

    /// Whether `after` and `result` are what a submitted move and the
    /// computer's turn after it make of the match: the move is played, and
    /// where it is accepted the computer's turn follows.
    pub open spec fn made_move(
        self,
        player_move: PlayerMove,
        player: Seq<char>,
        now: i64,
        after: QuoridorMatchView,
        result: PlayerMoveResult,
    ) -> bool {
        let first = self.play(player_move, player, now);
        &&& result == first.1
        &&& if result == PlayerMoveResult::Accepted {
            first.0.cpu_turn(after, now)
        } else {
            after == first.0
        }
    }
}

impl QuoridorMatch {
    /// A match between the players of `player_list`, begun now. The first
    /// plays up and moves first, the second plays down; where the list names
    /// one player only, the computer plays down.
    pub fn new(player_list: &Vec<String>) -> (started: Self)
        requires
            player_list@.len() >= 1,
        ensures
            exists|now: i64| #[trigger] started@.begins(texts_of(player_list@), now),
            started@.inv(),
    {
        let now = current_timestamp();
        let started = Self::new_at(player_list, now);
        proof {
            assert(started@.begins(texts_of(player_list@), now));
        }
        started
    }

    /// A match between the players of `player_list`, begun at the time
    /// `timestamp`.
    pub fn new_at(player_list: &Vec<String>, timestamp: i64) -> (started: Self)
        requires
            player_list@.len() >= 1,
        ensures
            started@.begins(texts_of(player_list@), timestamp),
            started@.inv(),
    {
        let down_player = if player_list.len() >= 2 {
            player_list[1].clone()
        } else {
            CPU.to_owned()
        };
        QuoridorMatch {
            up_player: player_list[0].clone(),
            timestamp,
            down_player,
            game: Quoridor::new(),
            turn: 0,
            current: player_list[0].clone(),
            winner: None,
            only_player_moves_allowed: false,
        }
    }

    /// The player of the up side.
    pub fn get_up_player(&self) -> (name: &String)
        ensures
            name@ == self@.up_player,
    {
        &self.up_player
    }

    /// The player of the down side.
    pub fn get_down_player(&self) -> (name: &String)
        ensures
            name@ == self@.down_player,
    {
        &self.down_player
    }

    /// The board of the match.
    pub fn get_game(&self) -> (game: &Quoridor)
        ensures
            game@ == self@.game,
    {
        &self.game
    }

    /// The player who is to move.
    pub fn get_current_player(&self) -> (current: &String)
        ensures
            current@ == self@.current,
    {
        &self.current
    }

    /// The number of moves that have been accepted.
    pub fn get_turn(&self) -> (turn: usize)
        ensures
            turn == self@.turn,
    {
        self.turn
    }

    /// Whether both tokens stand on one cell, so that only token moves are
    /// allowed.
    pub fn is_jump_phase(&self) -> (jump: bool)
        ensures
            jump == self@.only_player_moves_allowed,
    {
        self.only_player_moves_allowed
    }

    /// Notes the current time as the time of the last move.
    pub fn refresh_timestamp(&mut self)
        ensures
            final(self)@ == (QuoridorMatchView { timestamp: final(self)@.timestamp, ..old(self)@ }),
    {
        let now = current_timestamp();
        self.set_timestamp(now);
    }

    /// Looks at the clock: where the match has been silent for longer than
    /// the grace window, the player to move concedes.
    pub fn timeout_guard(&mut self)
        requires
            old(self)@.inv(),
        ensures
            exists|now: i64| final(self)@ == #[trigger] old(self)@.guarded(now),
            final(self)@.inv(),
    {
        let now = current_timestamp();
        self.timeout_guard_at(now);
        proof {
            assert(self@ == old(self)@.guarded(now));
        }
    }

    /// Where the match has been silent for longer than the grace window at
    /// the time `now`, the player to move concedes.
    pub fn timeout_guard_at(&mut self, now: i64)
        requires
            old(self)@.inv(),
        ensures
            final(self)@ == old(self)@.guarded(now),
            final(self)@.inv(),
    {
        if is_elapsed_over(self.get_timestamp(), now, AFK_CC_TIMER) {
            let current = self.current.clone();
            self.play(PlayerMove::Concede, current.as_str(), now);
        }
    }

    /// Whether the match has been silent for longer than the grace window and
    /// the buffer after it at the time `now`.
    pub fn is_expired_at(&self, now: i64) -> (expired: bool)
        ensures
            expired == self@.expired(now),
    {
        is_elapsed_over(self.get_timestamp(), now, AFK_CC_TIMER + EXPIRY_BUFFER)
    }

    /// Plays the move that `player` submits, at the current time, and lets
    /// the computer answer where it is to move after an accepted move.
    pub fn make_move(&mut self, player_move: PlayerMove, player: &str) -> (result: PlayerMoveResult)
        requires
            old(self)@.inv(),
        ensures
            exists|now: i64| #[trigger] old(self)@.made_move(player_move, player@, now, final(self)@, result),
            final(self)@.inv(),
    {
        let now = current_timestamp();
        let result = self.make_move_at(player_move, player, now);
        proof {
            assert(old(self)@.made_move(player_move, player@, now, self@, result));
        }
        result
    }

    /// Plays the move that `player` submits at the time `now`, and lets the
    /// computer answer where it is to move after an accepted move.
    pub fn make_move_at(&mut self, player_move: PlayerMove, player: &str, now: i64) -> (result: PlayerMoveResult)
        requires
            old(self)@.inv(),
        ensures
            old(self)@.made_move(player_move, player@, now, final(self)@, result),
            final(self)@.inv(),
    {
        let result = self.play(player_move, player, now);
        if matches!(result, PlayerMoveResult::Accepted) {
            self.cpu_player_move(now);
        }
        result
    }

    /// Plays one move that `player` submits at the time `now`: the step of
    /// the match's state machine, without the computer's answer.
    pub fn play(&mut self, player_move: PlayerMove, player: &str, now: i64) -> (result: PlayerMoveResult)
        requires
            old(self)@.inv(),
        ensures
            (final(self)@, result) == old(self)@.play(player_move, player@, now),
            final(self)@.inv(),
    {
        proof {
            lemma_play_keeps_order(self@, player_move, player@, now);
        }
        if self.winner.is_some() {
            return PlayerMoveResult::GameFinished;
        }
        let result = match player_move {
            PlayerMove::QuoridorWallH { row, col } => self.new_h_wall(player, (row, col)),
            PlayerMove::QuoridorWallV { row, col } => self.new_v_wall(player, (row, col)),
            PlayerMove::QuoridorMove { row, col } => self.move_player(player, (row, col)),
            PlayerMove::Concede => self.concede(player),
        };
        if matches!(result, PlayerMoveResult::Accepted) {
            self.end_turn(now);
        }
        result
    }

    /// The winner, once the match is over.
    pub fn get_winner(&self) -> (winner: Option<String>)
        ensures
            winner is Some == self@.winner is Some,
            winner is Some ==> winner->0@ == self@.winner->0,
    {
        match &self.winner {
            Some(name) => Some(name.clone()),
            None => None,
        }
    }

    /// Whether `player` plays in this match.
    pub fn contains_player(&self, player: &str) -> (plays: bool)
        ensures
            plays == (player@ == self@.up_player || player@ == self@.down_player),
    {
        same_text(self.up_player.as_str(), player) || same_text(self.down_player.as_str(), player)
    }

    /// The time of the last move.
    pub fn get_timestamp(&self) -> (timestamp: i64)
        ensures
            timestamp == self@.timestamp,
    {
        self.timestamp
    }

    /// Notes `timestamp` as the time of the last move.
    fn set_timestamp(&mut self, timestamp: i64)
        ensures
            final(self)@ == (QuoridorMatchView { timestamp, ..old(self)@ }),
    {
        self.timestamp = timestamp
    }

    /// Moves the token of `player`, who must be the one to move, and notes
    /// the winner where the token reaches its goal row.
    fn move_player(&mut self, player: &str, new_position: (usize, usize)) -> (result: PlayerMoveResult)
        requires
            old(self)@.winner is None,
        ensures
            result == old(self)@.play(
                PlayerMove::QuoridorMove { row: new_position.0, col: new_position.1 },
                player@,
                0,
            ).1,
            result == PlayerMoveResult::Accepted ==> final(self)@ == (QuoridorMatchView {
                game: old(self)@.moved(player@, new_position)->0,
                winner: if new_position.0 == (if player@ == old(self)@.up_player {
                    8usize
                } else {
                    0usize
                }) {
                    Some(old(self)@.current)
                } else {
                    None
                },
                ..old(self)@
            }),
            result != PlayerMoveResult::Accepted ==> final(self)@ == old(self)@,
    {
        if !same_text(self.current.as_str(), player) {
            return PlayerMoveResult::WrongTurn;
        }
        if same_text(player, self.up_player.as_str()) {
            if self.game.try_moving_up_player(new_position) {
                self.check_and_set_winner(&new_position, 8);
                return PlayerMoveResult::Accepted;
            }
        } else if self.game.try_moving_down_player(new_position) {
            self.check_and_set_winner(&new_position, 0);
            return PlayerMoveResult::Accepted;
        }
        PlayerMoveResult::Disallowed
    }

    /// Ends the match in favour of the opponent of `player`, where `player`
    /// is one of the two players.
    fn concede(&mut self, player: &str) -> (result: PlayerMoveResult)
        requires
            old(self)@.winner is None,
        ensures
            (final(self)@, result) == old(self)@.play(PlayerMove::Concede, player@, 0),
    {
        if same_text(player, self.up_player.as_str()) {
            self.winner = Some(self.down_player.clone());
            PlayerMoveResult::GameFinished
        } else if same_text(player, self.down_player.as_str()) {
            self.winner = Some(self.up_player.clone());
            PlayerMoveResult::GameFinished
        } else {
            PlayerMoveResult::NotFound
        }
    }

    /// Notes the player to move as the winner where `new_position` lies in
    /// the row `expected`.
    fn check_and_set_winner(&mut self, new_position: &(usize, usize), expected: usize)
        requires
            old(self)@.winner is None,
        ensures
            final(self)@ == (QuoridorMatchView {
                winner: if new_position.0 == expected {
                    Some(old(self)@.current)
                } else {
                    None
                },
                ..old(self)@
            }),
    {
        if new_position.0 == expected {
            self.winner = Some(self.current.clone())
        }
    }

    /// Places a horizontal wall for `player`, who must be the one to move and
    /// have a wall left, and takes the wall off the player's count.
    fn new_h_wall(&mut self, player: &str, position: (usize, usize)) -> (result: PlayerMoveResult)
        requires
            old(self)@.inv(),
            old(self)@.winner is None,
        ensures
            result == old(self)@.play(
                PlayerMove::QuoridorWallH { row: position.0, col: position.1 },
                player@,
                0,
            ).1,
            result == PlayerMoveResult::Accepted ==> final(self)@ == (QuoridorMatchView {
                game: old(self)@.walled(player@, position, true)->0,
                ..old(self)@
            }),
            result != PlayerMoveResult::Accepted ==> final(self)@ == old(self)@,
    {
        let player_status = self.player_is_valid(player);
        if !matches!(player_status, PlayerMoveResult::Accepted) {
            return player_status;
        }
        if self.only_player_moves_allowed || !self.game.new_h_wall(position) {
            return PlayerMoveResult::Disallowed;
        }
        self.remove_border_from_player(player);
        player_status
    }

    /// Places a vertical wall for `player`, who must be the one to move and
    /// have a wall left, and takes the wall off the player's count.
    fn new_v_wall(&mut self, player: &str, position: (usize, usize)) -> (result: PlayerMoveResult)
        requires
            old(self)@.inv(),
            old(self)@.winner is None,
        ensures
            result == old(self)@.play(
                PlayerMove::QuoridorWallV { row: position.0, col: position.1 },
                player@,
                0,
            ).1,
            result == PlayerMoveResult::Accepted ==> final(self)@ == (QuoridorMatchView {
                game: old(self)@.walled(player@, position, false)->0,
                ..old(self)@
            }),
            result != PlayerMoveResult::Accepted ==> final(self)@ == old(self)@,
    {
        let player_status = self.player_is_valid(player);
        if !matches!(player_status, PlayerMoveResult::Accepted) {
            return player_status;
        }
        if self.only_player_moves_allowed || !self.game.new_v_wall(position) {
            return PlayerMoveResult::Disallowed;
        }
        self.remove_border_from_player(player);
        player_status
    }

    /// Whether `player` may place a wall as far as the turn and the count of
    /// walls go.
    fn player_is_valid(&self, player: &str) -> (status: PlayerMoveResult)
        ensures
            status == if player@ != self@.current {
                PlayerMoveResult::WrongTurn
            } else if self@.out_of_walls(player@) {
                PlayerMoveResult::Disallowed
            } else {
                PlayerMoveResult::Accepted
            },
    {
        if !same_text(player, self.current.as_str()) {
            return PlayerMoveResult::WrongTurn;
        }
        if same_text(player, self.up_player.as_str()) && 1 > self.game.up_player_free_walls || same_text(
            player,
            self.down_player.as_str(),
        ) && 1 > self.game.down_player_free_walls {
            return PlayerMoveResult::Disallowed;
        }
        PlayerMoveResult::Accepted
    }

    /// Takes one wall off the count of `player`: the up player's count for
    /// the up player, the down player's for anyone else.
    fn remove_border_from_player(&mut self, player: &str)
        requires
            !old(self)@.out_of_walls(player@),
            player@ == old(self)@.up_player || player@ == old(self)@.down_player,
        ensures
            final(self)@ == (QuoridorMatchView {
                game: if player@ == old(self)@.up_player {
                    QuoridorView {
                        up_player_free_walls: (old(self)@.game.up_player_free_walls - 1) as usize,
                        ..old(self)@.game
                    }
                } else {
                    QuoridorView {
                        down_player_free_walls: (old(self)@.game.down_player_free_walls - 1) as usize,
                        ..old(self)@.game
                    }
                },
                ..old(self)@
            }),
    {
        if same_text(player, self.up_player.as_str()) {
            self.game.up_player_free_walls -= 1
        } else {
            self.game.down_player_free_walls -= 1
        }
    }

    /// Closes a turn in which a move was accepted.
    fn end_turn(&mut self, now: i64)
        ensures
            final(self)@ == old(self)@.settled(now),
    {
        self.timestamp = now;
        if self.turn < usize::MAX {
            self.turn += 1;
        }
        if self.game.up_player.0 == self.game.down_player.0 && self.game.up_player.1 == self.game.down_player.1 {
            self.only_player_moves_allowed = true;
        } else {
            self.only_player_moves_allowed = false;
            if self.winner.is_none() {
                self.switch_player()
            }
        }
    }

    /// Hands the turn to the other player.
    fn switch_player(&mut self)
        ensures
            final(self)@ == (QuoridorMatchView { current: old(self)@.other(old(self)@.current), ..old(self)@ }),
    {
        if same_text(self.current.as_str(), self.up_player.as_str()) {
            self.current = self.down_player.clone()
        } else {
            self.current = self.up_player.clone()
        }
    }

    /// Whether the computer is to move.
    fn is_cpu_turn(&self) -> (cpu: bool)
        ensures
            cpu == self@.cpu_to_move(),
    {
        self.winner.is_none() && same_text(self.current.as_str(), CPU)
    }

    /// Lets the computer make one move, and says whether the match took it.
    fn cpu_single_move(&mut self, now: i64) -> (accepted: bool)
        requires
            old(self)@.inv(),
            old(self)@.cpu_to_move(),
        ensures
            old(self)@.cpu_answer(final(self)@, accepted, now),
            final(self)@.inv(),
    {
        let cpu_move = CpuPlayer::get_cpu_move(&self.game, self.only_player_moves_allowed);
        let result = self.play(cpu_move, CPU, now);
        matches!(result, PlayerMoveResult::Accepted)
    }

    /// The computer's turn: nothing where the computer is not to move; else
    /// one move, and one more where the first was taken and left the computer
    /// to move.
    fn cpu_player_move(&mut self, now: i64)
        requires
            old(self)@.inv(),
        ensures
            old(self)@.cpu_turn(final(self)@, now),
            final(self)@.inv(),
    {
        if self.is_cpu_turn() {
            let accepted = self.cpu_single_move(now);
            let ghost mid = self@;
            if accepted && self.is_cpu_turn() {
                let again = self.cpu_single_move(now);
                proof {
                    assert(mid.cpu_answer(self@, again, now));
                }
            }
            proof {
                assert(old(self)@.cpu_answer(mid, accepted, now));
            }
        }
    }
}


impl Clone for QuoridorMatch {
    fn clone(&self) -> (copy: Self)
        ensures
            copy@ == self@,
    {
        let winner = match &self.winner {
            Some(name) => Some(name.clone()),
            None => None,
        };
        QuoridorMatch {
            timestamp: self.timestamp,
            up_player: self.up_player.clone(),
            down_player: self.down_player.clone(),
            game: self.game.clone(),
            turn: self.turn,
            current: self.current.clone(),
            winner,
            only_player_moves_allowed: self.only_player_moves_allowed,
        }
    }
}

impl QuoridorMatchView {
    /// The match after the moves of `moves` have been played one after the
    /// other, each by the player and at the time it comes with.
    pub open spec fn replay(self, moves: Seq<(PlayerMove, Seq<char>, i64)>) -> QuoridorMatchView
        decreases moves.len(),
    {
        if moves.len() == 0 {
            self
        } else {
            let last = moves.last();
            self.replay(moves.drop_last()).play(last.0, last.1, last.2).0
        }
    }
}

/// A match that has just begun is in order.
pub proof fn lemma_begun_in_order(begun: QuoridorMatchView, player_list: Seq<Seq<char>>, now: i64)
    requires
        begun.begins(player_list, now),
    ensures
        begun.inv(),
{
    let board = begun.game;
    let down_the_middle = Seq::new(9, |i: int| (i as usize, 4usize));
    assert forall|i: int| 0 <= i < 8 implies #[trigger] board.walk_step(down_the_middle, i) by {}
    assert(board.leads(down_the_middle, (0usize, 4usize), 8));
    let up_the_middle = Seq::new(9, |i: int| ((8 - i) as usize, 4usize));
    assert forall|i: int| 0 <= i < 8 implies #[trigger] board.walk_step(up_the_middle, i) by {}
    assert(board.leads(up_the_middle, (8usize, 4usize), 0));
}

/// Every state that a match can reach is in order: whatever moves are
/// submitted to a match from its beginning, by whomever and whenever, both
/// players keep a path to their goal rows, and the walls keep to the board
/// and to each other.
pub proof fn lemma_reachable_in_order(
    begun: QuoridorMatchView,
    player_list: Seq<Seq<char>>,
    now: i64,
    moves: Seq<(PlayerMove, Seq<char>, i64)>,
)
    requires
        begun.begins(player_list, now),
    ensures
        begun.replay(moves).inv(),
        begun.replay(moves).game.both_can_win(),
    decreases moves.len(),
{
    if moves.len() == 0 {
        lemma_begun_in_order(begun, player_list, now);
    } else {
        let last = moves.last();
        lemma_reachable_in_order(begun, player_list, now, moves.drop_last());
        lemma_play_keeps_order(begun.replay(moves.drop_last()), last.0, last.1, last.2);
    }
}

/// No move ever cuts a player off: after any move on a match in order, each
/// player still has a path to their goal row.
pub proof fn lemma_paths_survive(before: QuoridorMatchView, player_move: PlayerMove, player: Seq<char>, now: i64)
    requires
        before.inv(),
    ensures
        before.play(player_move, player, now).0.game.both_can_win(),
{
    lemma_play_keeps_order(before, player_move, player, now);
}

/// An accepted wall costs the player who placed it exactly one wall and the
/// other player none; a move that is not accepted, and an accepted token
/// move, leave both counts as they were.
pub proof fn lemma_wall_counts(before: QuoridorMatchView, player_move: PlayerMove, player: Seq<char>, now: i64)
    requires
        before.inv(),
    ensures
        ({
            let (after, result) = before.play(player_move, player, now);
            let wall = player_move is QuoridorWallH || player_move is QuoridorWallV;
            if result == PlayerMoveResult::Accepted && wall {
                if player == before.up_player {
                    &&& after.game.up_player_free_walls == before.game.up_player_free_walls - 1
                    &&& after.game.down_player_free_walls == before.game.down_player_free_walls
                } else {
                    &&& after.game.down_player_free_walls == before.game.down_player_free_walls - 1
                    &&& after.game.up_player_free_walls == before.game.up_player_free_walls
                }
            } else {
                &&& after.game.up_player_free_walls == before.game.up_player_free_walls
                &&& after.game.down_player_free_walls == before.game.down_player_free_walls
            }
        }),
{
}

/// Between two different players the turns alternate: after an accepted move
/// that does not end the match the other player is to move, unless the move
/// put both tokens on one cell; then the mover stays to move, for that one
/// move only, since the next accepted move takes the tokens apart again.
pub proof fn lemma_turns_alternate(before: QuoridorMatchView, player_move: PlayerMove, player: Seq<char>, now: i64)
    requires
        before.inv(),
        before.up_player != before.down_player,
    ensures
        ({
            let (after, result) = before.play(player_move, player, now);
            result == PlayerMoveResult::Accepted ==> {
                &&& player == before.current
                &&& after.winner is None && !after.only_player_moves_allowed ==> after.current != player
                    && after.current == before.other(player)
                &&& after.winner is None && after.only_player_moves_allowed ==> after.current == player
                &&& before.only_player_moves_allowed ==> !after.only_player_moves_allowed
            }
        }),
{
}

/// A concession by one of the two players ends a running match at once in
/// favour of the other, whoever is to move and wherever the tokens stand: the
/// other player is the winner, and nothing else of the match changes.
pub proof fn lemma_concession_ends_match(before: QuoridorMatchView, player: Seq<char>, now: i64)
    requires
        before.winner is None,
        player == before.up_player || player == before.down_player,
    ensures
        before.play(PlayerMove::Concede, player, now) == (
            QuoridorMatchView { winner: Some(before.other(player)), ..before },
            PlayerMoveResult::GameFinished,
        ),
{
}

/// A move that is turned down changes nothing, so that the same move gets the
/// same answer when it is submitted again, at any later time.
pub proof fn lemma_rejection_repeats(
    before: QuoridorMatchView,
    player_move: PlayerMove,
    player: Seq<char>,
    now: i64,
    later: i64,
)
    ensures
        ({
            let (after, result) = before.play(player_move, player, now);
            let rejected = result == PlayerMoveResult::WrongTurn || result == PlayerMoveResult::Disallowed || result
                == PlayerMoveResult::NotFound || before.winner is Some;
            rejected ==> after == before && before.play(player_move, player, later) == (before, result)
        }),
{
}

} // verus!
