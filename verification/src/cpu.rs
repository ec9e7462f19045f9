use crate::game::{on_board, Quoridor, QuoridorView};
use crate::game::lemma_path_len;
use crate::messages::PlayerMove;
use rand::Rng;
use vstd::prelude::*;

verus! {

/// The identity that stands for the computer-controlled player.
pub const CPU: &'static str = "|QCPU|";

/// How far apart two cells are when each is taken as the sum of its row and
/// its column.
pub open spec fn total_difference(x: (usize, usize), y: (usize, usize)) -> int {
    if x.0 + x.1 > y.0 + y.1 {
        x.0 + x.1 - (y.0 + y.1)
    } else {
        y.0 + y.1 - (x.0 + x.1)
    }
}

/// Whether the computer would rather advance to `step` than place a wall:
/// it is not behind (the coin, 0 or 1, is added to the opponent's length), and
/// the step does not bring it next to the opponent; or the step lands on the
/// opponent's cell; or the opponent is one move from its goal row.
pub open spec fn prefers_advance(
    board: QuoridorView,
    cpu_path: Seq<(usize, usize)>,
    player_path: Seq<(usize, usize)>,
    coin: usize,
    step: (usize, usize),
) -> bool {
    ||| (cpu_path.len() <= player_path.len() + coin && total_difference(step, board.up_player) != 1)
    ||| total_difference(step, board.up_player) == 0
    ||| player_path.len() == 2
}

/// For each cell of `cells`, from the last to the first, at which a
/// horizontal wall may be placed: the number of cells of the up player's
/// shortest path with that wall, and the cell.
pub open spec fn h_wall_results(board: QuoridorView, cells: Seq<(usize, usize)>) -> Seq<(usize, (usize, usize))>
    decreases cells.len(),
{
    if cells.len() == 0 {
        Seq::empty()
    } else {
        let rest = h_wall_results(board, cells.skip(1));
        let cell = cells.first();
        if board.h_wall_allowed(cell) {
            rest.push((board.with_h_wall(cell).path_len(board.up_player, 8) as usize, cell))
        } else {
            rest
        }
    }
}

/// For each cell of `cells`, from the last to the first, at which a
/// vertical wall may be placed: the number of cells of the up player's
/// shortest path with that wall, and the cell.
pub open spec fn v_wall_results(board: QuoridorView, cells: Seq<(usize, usize)>) -> Seq<(usize, (usize, usize))>
    decreases cells.len(),
{
    if cells.len() == 0 {
        Seq::empty()
    } else {
        let rest = v_wall_results(board, cells.skip(1));
        let cell = cells.first();
        if board.v_wall_allowed(cell) {
            rest.push((board.with_v_wall(cell).path_len(board.up_player, 8) as usize, cell))
        } else {
            rest
        }
    }
}

/// The entry with the greatest length, the last one among equals; `None` for
/// an empty list.
pub open spec fn best_result(results: Seq<(usize, (usize, usize))>) -> Option<(usize, (usize, usize))>
    decreases results.len(),
{
    if results.len() == 0 {
        None
    } else {
        let last = results.last();
        match best_result(results.drop_last()) {
            Some(best) => if last.0 >= best.0 {
                Some(last)
            } else {
                Some(best)
            },
            None => Some(last),
        }
    }
}

/// The wall to place, given the best horizontal and the best vertical
/// candidate: the vertical one only where it makes the path strictly longer
/// than the horizontal one, or where there is no horizontal one.
pub open spec fn wall_choice(h: Option<(usize, (usize, usize))>, v: Option<(usize, (usize, usize))>) -> Option<
    PlayerMove,
> {
    match (h, v) {
        (None, None) => None,
        (None, Some((_, cell))) => Some(PlayerMove::QuoridorWallV { row: cell.0, col: cell.1 }),
        (Some((_, cell)), None) => Some(PlayerMove::QuoridorWallH { row: cell.0, col: cell.1 }),
        (Some((h_len, h_cell)), Some((v_len, v_cell))) => if v_len > h_len {
            Some(PlayerMove::QuoridorWallV { row: v_cell.0, col: v_cell.1 })
        } else {
            Some(PlayerMove::QuoridorWallH { row: h_cell.0, col: h_cell.1 })
        },
    }
}

/// The wall that hinders the up player most, among the walls that may be
/// placed at a cell of `player_path`. Among walls of one direction that
/// hinder alike, the one at the cell nearest to the up player's token is
/// taken.
pub open spec fn best_wall(board: QuoridorView, player_path: Seq<(usize, usize)>) -> Option<PlayerMove> {
    wall_choice(
        best_result(h_wall_results(board, player_path)),
        best_result(v_wall_results(board, player_path)),
    )
}

/// The move the computer makes as the down player, given its own shortest
/// path to row 0, the up player's shortest path to row 8 and a coin of 0 or
/// 1: the next step along its own path, unless walls are allowed and left, it
/// does not prefer to advance, and some wall may be placed on the up
/// player's path; then the wall that hinders the up player most.
pub open spec fn cpu_choice(
    board: QuoridorView,
    cpu_path: Seq<(usize, usize)>,
    player_path: Seq<(usize, usize)>,
    coin: usize,
    only_player_moves_allowed: bool,
) -> PlayerMove {
    let step = cpu_path[1];
    let advance = PlayerMove::QuoridorMove { row: step.0, col: step.1 };
    if !only_player_moves_allowed && !prefers_advance(board, cpu_path, player_path, coin, step)
        && board.down_player_free_walls != 0 {
        match best_wall(board, player_path) {
            Some(wall) => wall,
            None => advance,
        }
    } else {
        advance
    }
}

/// Whether `chosen` is a move the computer may make on `board` with `coin`:
/// what `cpu_choice` gives for some shortest path of its own and some
/// shortest path of the up player.
pub open spec fn cpu_may_choose(
    board: QuoridorView,
    coin: usize,
    only_player_moves_allowed: bool,
    chosen: PlayerMove,
) -> bool {
    exists|cpu_path: Seq<(usize, usize)>, player_path: Seq<(usize, usize)>|
        board.is_shortest(cpu_path, board.down_player, 0) && board.is_shortest(player_path, board.up_player, 8)
            && chosen == #[trigger] cpu_choice(board, cpu_path, player_path, coin, only_player_moves_allowed)
}

/// Whether the down player may make the move `chosen` on `board`: a step, a
/// jump or a turn round the opponent that the rules allow, or, while walls
/// are allowed and left, a wall that may be placed.
pub open spec fn legal_for_down(board: QuoridorView, only_player_moves_allowed: bool, chosen: PlayerMove) -> bool {
    match chosen {
        PlayerMove::QuoridorMove { row, col } => board.legal_move(board.down_player, board.up_player, (row, col)),
        PlayerMove::QuoridorWallH { row, col } => !only_player_moves_allowed && board.down_player_free_walls != 0
            && board.h_wall_allowed((row, col)),
        PlayerMove::QuoridorWallV { row, col } => !only_player_moves_allowed && board.down_player_free_walls != 0
            && board.v_wall_allowed((row, col)),
        PlayerMove::Concede => false,
    }
}

/// Every entry of the horizontal results names a wall that may be placed.
pub proof fn lemma_h_results_allowed(board: QuoridorView, cells: Seq<(usize, usize)>, i: int)
    requires
        0 <= i < h_wall_results(board, cells).len(),
    ensures
        board.h_wall_allowed(h_wall_results(board, cells)[i].1),
    decreases cells.len(),
{
    if cells.len() > 0 {
        let rest = h_wall_results(board, cells.skip(1));
        if i < rest.len() {
            lemma_h_results_allowed(board, cells.skip(1), i);
        }
    }
}

/// Every entry of the vertical results names a wall that may be placed.
pub proof fn lemma_v_results_allowed(board: QuoridorView, cells: Seq<(usize, usize)>, i: int)
    requires
        0 <= i < v_wall_results(board, cells).len(),
    ensures
        board.v_wall_allowed(v_wall_results(board, cells)[i].1),
    decreases cells.len(),
{
    if cells.len() > 0 {
        let rest = v_wall_results(board, cells.skip(1));
        if i < rest.len() {
            lemma_v_results_allowed(board, cells.skip(1), i);
        }
    }
}

/// The best entry of a list is one of its entries.
pub proof fn lemma_best_is_member(results: Seq<(usize, (usize, usize))>) -> (i: int)
    requires
        results.len() > 0,
    ensures
        0 <= i < results.len(),
        best_result(results) == Some(results[i]),
    decreases results.len(),
{
    if results.len() == 1 {
        assert(results.drop_last().len() == 0);
        0
    } else {
        let j = lemma_best_is_member(results.drop_last());
        let last = results.last();
        let best = results.drop_last()[j];
        if last.0 >= best.0 {
            results.len() - 1
        } else {
            j
        }
    }
}

/// The computer's move is always one the rules allow the down player to
/// make.
pub proof fn lemma_cpu_choice_is_legal(
    board: QuoridorView,
    cpu_path: Seq<(usize, usize)>,
    player_path: Seq<(usize, usize)>,
    coin: usize,
    only_player_moves_allowed: bool,
)
    requires
        board.is_shortest(cpu_path, board.down_player, 0),
        board.down_player.0 != 0,
    ensures
        legal_for_down(
            board,
            only_player_moves_allowed,
            cpu_choice(board, cpu_path, player_path, coin, only_player_moves_allowed),
        ),
{
    let step = cpu_path[1];
    assert(cpu_path[0] == board.down_player);
    assert(cpu_path.len() >= 2);
    assert(board.walk_step(cpu_path, 0));
    let chosen = cpu_choice(board, cpu_path, player_path, coin, only_player_moves_allowed);
    let h = best_result(h_wall_results(board, player_path));
    let v = best_result(v_wall_results(board, player_path));
    if h is Some {
        let i = lemma_best_is_member(h_wall_results(board, player_path));
        lemma_h_results_allowed(board, player_path, i);
    }
    if v is Some {
        let i = lemma_best_is_member(v_wall_results(board, player_path));
        lemma_v_results_allowed(board, player_path, i);
    }
}

/// Draws 0 or 1 with `rand::Rng::gen_range` on `rand::thread_rng()`, for the
/// range `0..=1`. Of the result only the range is known: it differs from call
/// to call. On a machine that cannot seed the generator the call does not
/// return.
#[verifier::external_body]
fn coin_flip() -> (coin: usize)
    ensures
        coin <= 1,
{
    rand::thread_rng().gen_range(0..=1)
}

/// The computer-controlled player, which plays the down side: a copy of the
/// board with its own shortest path to row 0 and the up player's shortest
/// path to row 8, each from the token to the goal row.
pub struct CpuPlayer {
    game: Quoridor,
    cpu_path: Vec<(usize, usize)>,
    player_path: Vec<(usize, usize)>,
}

impl CpuPlayer {
    /// The board the player looks at.
    pub closed spec fn board(&self) -> QuoridorView {
        self.game@
    }

    /// The player's own shortest path.
    pub closed spec fn own_path(&self) -> Seq<(usize, usize)> {
        self.cpu_path@
    }

    /// The opponent's shortest path.
    pub closed spec fn opponent_path(&self) -> Seq<(usize, usize)> {
        self.player_path@
    }

    /// The player is in order when the board is, its token is not in its goal
    /// row yet, and the two paths are shortest paths on the board.
    pub open spec fn inv(&self) -> bool {
        &&& self.board().inv()
        &&& self.board().down_player.0 != 0
        &&& self.board().is_shortest(self.own_path(), self.board().down_player, 0)
        &&& self.board().is_shortest(self.opponent_path(), self.board().up_player, 8)
    }

    /// The move the computer makes on `game` as the down player. It flips a
    /// coin to decide, when the two paths are equally long, whether it counts
    /// as being behind.
    pub fn get_cpu_move(game: &Quoridor, only_palyer_moves_allowed: bool) -> (chosen: PlayerMove)
        requires
            game@.inv(),
            game@.down_player.0 != 0,
        ensures
            exists|coin: usize| coin <= 1 && #[trigger] cpu_may_choose(game@, coin, only_palyer_moves_allowed, chosen),
            legal_for_down(game@, only_palyer_moves_allowed, chosen),
    {
        let coin = coin_flip();
        let chosen = Self::get_cpu_move_with(game, only_palyer_moves_allowed, coin);
        proof {
            assert(cpu_may_choose(game@, coin, only_palyer_moves_allowed, chosen));
        }
        chosen
    }

    /// The move the computer makes on `game` as the down player when the coin
    /// shows `coin`.
    pub fn get_cpu_move_with(game: &Quoridor, only_palyer_moves_allowed: bool, coin: usize) -> (chosen: PlayerMove)
        requires
            game@.inv(),
            game@.down_player.0 != 0,
        ensures
            cpu_may_choose(game@, coin, only_palyer_moves_allowed, chosen),
            legal_for_down(game@, only_palyer_moves_allowed, chosen),
    {
        let mut instance = Self::new(game.clone());
        let chosen = instance.choose_move(only_palyer_moves_allowed, coin);
        proof {
            lemma_cpu_choice_is_legal(
                game@,
                instance.cpu_path@,
                instance.player_path@,
                coin,
                only_palyer_moves_allowed,
            );
        }
        chosen
    }

    /// The move for the board and the paths that the player holds.
    fn choose_move(&mut self, only_palyer_moves_allowed: bool, coin: usize) -> (chosen: PlayerMove)
        requires
            old(self).inv(),
        ensures
            chosen == cpu_choice(
                old(self).board(),
                old(self).own_path(),
                old(self).opponent_path(),
                coin,
                only_palyer_moves_allowed,
            ),
            final(self).board() == old(self).board(),
            final(self).own_path() == old(self).own_path(),
            final(self).opponent_path() == old(self).opponent_path(),
    {
        proof {
            assert(self.cpu_path@[0] == self.game@.down_player);
            assert(self.cpu_path@.len() >= 2);
        }
        let new_position = self.cpu_path[1];
        proof {
            assert(self.game@.walk_step(self.cpu_path@, 0));
        }
        if !only_palyer_moves_allowed && !self.is_cpu_closer(new_position, coin)
            && self.game.down_player_free_walls != 0 {
            let maybe_wall = self.get_best_wall();
            if maybe_wall.is_some() {
                return maybe_wall.unwrap();
            }
        }
        PlayerMove::QuoridorMove { row: new_position.0, col: new_position.1 }
    }

    /// Whether the computer would rather advance to `position` than place a
    /// wall.
    fn is_cpu_closer(&self, position: (usize, usize), coin: usize) -> (closer: bool)
        requires
            on_board(position),
            on_board(self.game@.up_player),
        ensures
            closer == prefers_advance(self.game@, self.cpu_path@, self.player_path@, coin, position),
    {
        self.is_cpu_closer_or_rng(coin) && !self.can_enemy_jump_over_cpu(position) || self.can_cpu_jump_over(
            position,
        ) || self.player_wins_next_turn()
    }

    /// The player for `game`, with both shortest paths worked out.
    fn new(game: Quoridor) -> (player: Self)
        requires
            game@.inv(),
            game@.down_player.0 != 0,
        ensures
            player.inv(),
            player.game@ == game@,
    {
        let cpu_path = game.get_shortest_path(game.down_player, 0);
        let player_path = game.get_shortest_path(game.up_player, 8);
        Self { cpu_path: cpu_path.unwrap(), player_path: player_path.unwrap(), game }
    }

    /// The entry with the greatest length, the last one among equals.
    fn get_max_from_vec_len_to_wall(len_to_positions: &Vec<(usize, (usize, usize))>) -> (best: Option<
        (usize, (usize, usize)),
    >)
        ensures
            best == best_result(len_to_positions@),
    {
        if len_to_positions.len() == 0 {
            return None;
        }
        let mut maxed_out = len_to_positions[0];
        let mut i: usize = 1;
        proof {
            let first = len_to_positions@.subrange(0, 1);
            assert(first.drop_last().len() == 0);
            assert(best_result(first.drop_last()) is None);
            assert(first.last() == len_to_positions@[0]);
        }
        while i < len_to_positions.len()
            invariant
                1 <= i <= len_to_positions@.len(),
                Some(maxed_out) == best_result(len_to_positions@.subrange(0, i as int)),
            decreases len_to_positions@.len() - i,
        {
            let len_to_pos = len_to_positions[i];
            proof {
                let now = len_to_positions@.subrange(0, i + 1);
                assert(now.drop_last() =~= len_to_positions@.subrange(0, i as int));
                assert(now.last() == len_to_pos);
            }
            if len_to_pos.0 >= maxed_out.0 {
                maxed_out = len_to_pos;
            }
            i += 1;
        }
        proof {
            assert(len_to_positions@.subrange(0, i as int) =~= len_to_positions@);
        }
        Some(maxed_out)
    }

    /// Whether the step to `position` lands on the opponent's cell.
    fn can_cpu_jump_over(&self, position: (usize, usize)) -> (can: bool)
        requires
            on_board(position),
            on_board(self.game@.up_player),
        ensures
            can == (total_difference(position, self.game@.up_player) == 0),
    {
        Self::get_difference_between_total_positions(position, self.game.up_player) == 0
    }

    /// Whether the step to `position` brings the computer next to the
    /// opponent, who could then jump over it.
    fn can_enemy_jump_over_cpu(&self, position: (usize, usize)) -> (can: bool)
        requires
            on_board(position),
            on_board(self.game@.up_player),
        ensures
            can == (total_difference(position, self.game@.up_player) == 1),
    {
        Self::get_difference_between_total_positions(position, self.game.up_player) == 1
    }

    /// Whether the computer's path is no longer than the opponent's with the
    /// coin added.
    fn is_cpu_closer_or_rng(&self, coin: usize) -> (closer: bool)
        ensures
            closer == (self.cpu_path@.len() <= self.player_path@.len() + coin),
    {
        if coin > self.cpu_path.len() {
            true
        } else {
            self.cpu_path.len() - coin <= self.player_path.len()
        }
    }

    /// Whether the opponent is one move from its goal row.
    fn player_wins_next_turn(&self) -> (wins: bool)
        ensures
            wins == (self.player_path@.len() == 2),
    {
        self.player_path.len() == 2
    }

    /// The difference between the two cells, each taken as the sum of its row
    /// and its column.
    fn get_difference_between_total_positions(position_x: (usize, usize), position_y: (usize, usize)) -> (d: usize)
        requires
            on_board(position_x),
            on_board(position_y),
        ensures
            d == total_difference(position_x, position_y),
    {
        let x = position_x.0 + position_x.1;
        let y = position_y.0 + position_y.1;
        if x > y {
            x - y
        } else {
            y - x
        }
    }

    /// The wall that hinders the opponent most, among the walls that may be
    /// placed at a cell of the opponent's path. The cells are tried from the
    /// goal row back to the opponent's token; each candidate is placed on the
    /// player's board, measured and taken off again.
    fn get_best_wall(&mut self) -> (wall: Option<PlayerMove>)
        requires
            old(self).inv(),
        ensures
            wall == best_wall(old(self).game@, old(self).player_path@),
            final(self).game@ == old(self).game@,
            final(self).cpu_path == old(self).cpu_path,
            final(self).player_path == old(self).player_path,
    {
        let mut path_results_h: Vec<(usize, (usize, usize))> = Vec::new();
        let mut path_results_v: Vec<(usize, (usize, usize))> = Vec::new();
        let mut idx: usize = self.player_path.len();
        while idx > 0
            invariant
                idx <= self.player_path@.len(),
                self.game@ == old(self).game@,
                self.cpu_path == old(self).cpu_path,
                self.player_path == old(self).player_path,
                self.game@.inv(),
                path_results_h@ == h_wall_results(
                    self.game@,
                    self.player_path@.subrange(idx as int, self.player_path@.len() as int),
                ),
                path_results_v@ == v_wall_results(
                    self.game@,
                    self.player_path@.subrange(idx as int, self.player_path@.len() as int),
                ),
            decreases idx,
        {
            idx -= 1;
            let cell = self.player_path[idx];
            proof {
                let n = self.player_path@.len() as int;
                let now = self.player_path@.subrange(idx as int, n);
                assert(now.skip(1) =~= self.player_path@.subrange(idx + 1, n));
                assert(now.first() == cell);
            }
            self.add_new_hwall_path_result(cell, &mut path_results_h);
            self.add_new_vwall_path_result(cell, &mut path_results_v);
        }
        proof {
            assert(self.player_path@.subrange(0, self.player_path@.len() as int) =~= self.player_path@);
        }
        let max_h = Self::get_max_from_vec_len_to_wall(&path_results_h);
        let max_v = Self::get_max_from_vec_len_to_wall(&path_results_v);
        Self::create_move_from_wall_results(max_h, max_v)
    }

    /// The wall to place, given the best horizontal and the best vertical
    /// candidate.
    fn create_move_from_wall_results(
        h: Option<(usize, (usize, usize))>,
        v: Option<(usize, (usize, usize))>,
    ) -> (wall: Option<PlayerMove>)
        ensures
            wall == wall_choice(h, v),
    {
        match (h, v) {
            (None, None) => None,
            (None, Some((_, cell))) => Some(PlayerMove::QuoridorWallV { row: cell.0, col: cell.1 }),
            (Some((_, cell)), None) => Some(PlayerMove::QuoridorWallH { row: cell.0, col: cell.1 }),
            (Some((h_len, h_cell)), Some((v_len, v_cell))) => {
                if v_len > h_len {
                    Some(PlayerMove::QuoridorWallV { row: v_cell.0, col: v_cell.1 })
                } else {
                    Some(PlayerMove::QuoridorWallH { row: h_cell.0, col: h_cell.1 })
                }
            },
        }
    }

    /// Tries a horizontal wall at `position`: where it may be placed, notes
    /// how long it makes the opponent's shortest path, and takes it off again.
    fn add_new_hwall_path_result(&mut self, position: (usize, usize), storage: &mut Vec<(usize, (usize, usize))>)
        requires
            old(self).game@.inv(),
        ensures
            final(self).game@ == old(self).game@,
            final(self).cpu_path == old(self).cpu_path,
            final(self).player_path == old(self).player_path,
            final(storage)@ == if old(self).game@.h_wall_allowed(position) {
                old(storage)@.push(
                    (old(self).game@.with_h_wall(position).path_len(old(self).game@.up_player, 8) as usize, position),
                )
            } else {
                old(storage)@
            },
    {
        if self.game.new_h_wall(position) {
            let path = self.game.get_shortest_path(self.game.up_player, 8);
            proof {
                lemma_path_len(self.game@, path->0@, self.game@.up_player, 8);
            }
            storage.push((path.unwrap().len(), position));
            self.game.horizontal_walls.pop();
            proof {
                assert(self.game@.horizontal_walls =~= old(self).game@.horizontal_walls);
            }
        }
    }

    /// Tries a vertical wall at `position`: where it may be placed, notes how
    /// long it makes the opponent's shortest path, and takes it off again.
    fn add_new_vwall_path_result(&mut self, position: (usize, usize), storage: &mut Vec<(usize, (usize, usize))>)
        requires
            old(self).game@.inv(),
        ensures
            final(self).game@ == old(self).game@,
            final(self).cpu_path == old(self).cpu_path,
            final(self).player_path == old(self).player_path,
            final(storage)@ == if old(self).game@.v_wall_allowed(position) {
                old(storage)@.push(
                    (old(self).game@.with_v_wall(position).path_len(old(self).game@.up_player, 8) as usize, position),
                )
            } else {
                old(storage)@
            },
    {
        if self.game.new_v_wall(position) {
            let path = self.game.get_shortest_path(self.game.up_player, 8);
            proof {
                lemma_path_len(self.game@, path->0@, self.game@.up_player, 8);
            }
            storage.push((path.unwrap().len(), position));
            self.game.vertical_walls.pop();
            proof {
                assert(self.game@.vertical_walls =~= old(self).game@.vertical_walls);
            }
        }
    }
}

} // verus!
