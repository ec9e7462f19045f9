use crate::a_star::{connects, is_path, path_cost, path_step, AStar, PathGenerator};
use crate::messages::{same_text, texts_of};
use vstd::prelude::*;

verus! {

/// Cells per side of the board.
pub const BOARD_SIDE: usize = 9;

/// Wall anchors per side of the board.
pub const WALL_SIDE: usize = 8;

/// Walls each player starts with.
pub const STARTING_WALLS: usize = 9;

/// Whether `position` is a cell of the board.
pub open spec fn on_board(position: (usize, usize)) -> bool {
    position.0 < 9 && position.1 < 9
}

/// Whether `wall` is an anchor at which a wall fits on the board.
pub open spec fn wall_slot(wall: (usize, usize)) -> bool {
    wall.0 < 8 && wall.1 < 8
}

/// Whether the two cells share a side.
pub open spec fn adjacent(a: (usize, usize), b: (usize, usize)) -> bool {
    ||| (a.0 == b.0 && (a.1 + 1 == b.1 || b.1 + 1 == a.1))
    ||| (a.1 == b.1 && (a.0 + 1 == b.0 || b.0 + 1 == a.0))
}

/// Whether the horizontal wall anchored at `wall` lies between the cells
/// `(row, col)` and `(row + 1, col)`: it runs under the columns `wall.1` and
/// `wall.1 + 1` of row `wall.0`.
pub open spec fn h_cuts(wall: (usize, usize), row: int, col: int) -> bool {
    wall.0 == row && (wall.1 == col || wall.1 + 1 == col)
}

/// Whether the vertical wall anchored at `wall` lies between the cells
/// `(row, col)` and `(row, col + 1)`: it runs right of the rows `wall.0` and
/// `wall.0 + 1` of column `wall.1`.
pub open spec fn v_cuts(wall: (usize, usize), row: int, col: int) -> bool {
    wall.1 == col && (wall.0 == row || wall.0 + 1 == row)
}

/// Whether two horizontal walls overlap: same row, anchors at most one column
/// apart.
pub open spec fn h_clash(a: (usize, usize), b: (usize, usize)) -> bool {
    a.0 == b.0 && (a.1 == b.1 || a.1 + 1 == b.1 || b.1 + 1 == a.1)
}

/// Whether two vertical walls overlap: same column, anchors at most one row
/// apart.
pub open spec fn v_clash(a: (usize, usize), b: (usize, usize)) -> bool {
    a.1 == b.1 && (a.0 == b.0 || a.0 + 1 == b.0 || b.0 + 1 == a.0)
}

/// Whether `over` lies in the middle of the straight line from `from` to `to`.
pub open spec fn in_line(from: (usize, usize), over: (usize, usize), to: (usize, usize)) -> bool {
    from.0 + to.0 == 2 * over.0 && from.1 + to.1 == 2 * over.1
}

/// The state of a board as plain values.
pub struct QuoridorView {
    pub up_player: (usize, usize),
    pub down_player: (usize, usize),
    pub up_player_free_walls: usize,
    pub down_player_free_walls: usize,
    pub vertical_walls: Seq<(usize, usize)>,
    pub horizontal_walls: Seq<(usize, usize)>,
}

impl QuoridorView {
    /// Whether a wall crosses the side that the adjacent cells `a` and `b`
    /// share.
    pub open spec fn walled(self, a: (usize, usize), b: (usize, usize)) -> bool {
        if a.0 == b.0 {
            let col = if a.1 < b.1 {
                a.1
            } else {
                b.1
            };
            exists|i: int|
                0 <= i < self.vertical_walls.len() && v_cuts(#[trigger] self.vertical_walls[i], a.0 as int, col as int)
        } else {
            let row = if a.0 < b.0 {
                a.0
            } else {
                b.0
            };
            exists|i: int|
                0 <= i < self.horizontal_walls.len() && h_cuts(
                    #[trigger] self.horizontal_walls[i],
                    row as int,
                    a.1 as int,
                )
        }
    }

    /// Whether a token can go from `a` to `b` in one plain step: both are
    /// cells of the board, they share a side, and no wall crosses it.
    pub open spec fn step_open(self, a: (usize, usize), b: (usize, usize)) -> bool {
        on_board(a) && on_board(b) && adjacent(a, b) && !self.walled(a, b)
    }

    /// The cells that can be entered from `from` in one plain step: up, right,
    /// down, left, in that order.
    pub open spec fn open_steps(self, from: (usize, usize)) -> Seq<(usize, usize)> {
        let up = ((from.0 - 1) as usize, from.1);
        let right = (from.0, (from.1 + 1) as usize);
        let down = ((from.0 + 1) as usize, from.1);
        let left = (from.0, (from.1 - 1) as usize);
        (if from.0 > 0 && self.step_open(from, up) {
            seq![up]
        } else {
            Seq::empty()
        }) + (if from.1 < 8 && self.step_open(from, right) {
            seq![right]
        } else {
            Seq::empty()
        }) + (if from.0 < 8 && self.step_open(from, down) {
            seq![down]
        } else {
            Seq::empty()
        }) + (if from.1 > 0 && self.step_open(from, left) {
            seq![left]
        } else {
            Seq::empty()
        })
    }

    /// A walk is a path of plain steps, written from its start to its end.
    pub open spec fn is_walk(self, walk: Seq<(usize, usize)>) -> bool {
        &&& walk.len() >= 1
        &&& forall|i: int| 0 <= i < walk.len() - 1 ==> #[trigger] self.walk_step(walk, i)
    }

    /// Whether a plain step leads from the `i`-th cell of `walk` to the cell
    /// that follows it.
    pub open spec fn walk_step(self, walk: Seq<(usize, usize)>, i: int) -> bool {
        self.step_open(walk[i], walk[i + 1])
    }

    /// Whether `walk` leads from `from` to a cell of row `row`: it begins at
    /// `from` and ends in that row.
    pub open spec fn leads(self, walk: Seq<(usize, usize)>, from: (usize, usize), row: usize) -> bool {
        self.is_walk(walk) && walk[0] == from && walk.last().0 == row
    }

    /// Whether some walk leads from `from` to row `row`.
    pub open spec fn has_path(self, from: (usize, usize), row: usize) -> bool {
        exists|walk: Seq<(usize, usize)>| self.leads(walk, from, row)
    }

    /// Whether `walk` leads from `from` to row `row` and no walk that does so
    /// is shorter.
    pub open spec fn is_shortest(self, walk: Seq<(usize, usize)>, from: (usize, usize), row: usize) -> bool {
        &&& self.leads(walk, from, row)
        &&& forall|other: Seq<(usize, usize)>| #[trigger] self.leads(other, from, row) ==> walk.len() <= other.len()
    }

    /// The number of cells of a shortest walk from `from` to row `row`, where
    /// there is a walk.
    pub open spec fn path_len(self, from: (usize, usize), row: usize) -> nat {
        let walk = choose|walk: Seq<(usize, usize)>| self.is_shortest(walk, from, row);
        walk.len()
    }

    /// Whether a horizontal wall at `wall` is clear of the walls that stand:
    /// it overlaps no horizontal wall and crosses no vertical wall at its own
    /// anchor.
    pub open spec fn h_wall_fits(self, wall: (usize, usize)) -> bool {
        &&& forall|i: int|
            0 <= i < self.horizontal_walls.len() ==> !h_clash(#[trigger] self.horizontal_walls[i], wall)
        &&& !self.vertical_walls.contains(wall)
    }

    /// Whether a vertical wall at `wall` is clear of the walls that stand.
    pub open spec fn v_wall_fits(self, wall: (usize, usize)) -> bool {
        &&& forall|i: int| 0 <= i < self.vertical_walls.len() ==> !v_clash(#[trigger] self.vertical_walls[i], wall)
        &&& !self.horizontal_walls.contains(wall)
    }

    /// The board with one more horizontal wall.
    pub open spec fn with_h_wall(self, wall: (usize, usize)) -> QuoridorView {
        QuoridorView { horizontal_walls: self.horizontal_walls.push(wall), ..self }
    }

    /// The board with one more vertical wall.
    pub open spec fn with_v_wall(self, wall: (usize, usize)) -> QuoridorView {
        QuoridorView { vertical_walls: self.vertical_walls.push(wall), ..self }
    }

    /// Whether both players can still reach their goal rows: the up player
    /// row 8, the down player row 0.
    pub open spec fn both_can_win(self) -> bool {
        self.has_path(self.up_player, 8) && self.has_path(self.down_player, 0)
    }

    /// Whether a horizontal wall may be placed at `wall`: the anchor is on the
    /// board, the wall is clear of the others, and with it both players can
    /// still reach their goal rows.
    pub open spec fn h_wall_allowed(self, wall: (usize, usize)) -> bool {
        wall_slot(wall) && self.h_wall_fits(wall) && self.with_h_wall(wall).both_can_win()
    }

    /// Whether a vertical wall may be placed at `wall`.
    pub open spec fn v_wall_allowed(self, wall: (usize, usize)) -> bool {
        wall_slot(wall) && self.v_wall_fits(wall) && self.with_v_wall(wall).both_can_win()
    }

    /// The walls keep to the board and to each other: every anchor is on the
    /// board, no two walls of one orientation overlap, and no two walls cross
    /// at one anchor.
    pub open spec fn walls_ok(self) -> bool {
        &&& forall|i: int| 0 <= i < self.horizontal_walls.len() ==> wall_slot(#[trigger] self.horizontal_walls[i])
        &&& forall|i: int| 0 <= i < self.vertical_walls.len() ==> wall_slot(#[trigger] self.vertical_walls[i])
        &&& forall|i: int, j: int|
            0 <= i < j < self.horizontal_walls.len() ==> !h_clash(
                #[trigger] self.horizontal_walls[i],
                #[trigger] self.horizontal_walls[j],
            )
        &&& forall|i: int, j: int|
            0 <= i < j < self.vertical_walls.len() ==> !v_clash(
                #[trigger] self.vertical_walls[i],
                #[trigger] self.vertical_walls[j],
            )
        &&& forall|i: int|
            0 <= i < self.horizontal_walls.len() ==> !self.vertical_walls.contains(
                #[trigger] self.horizontal_walls[i],
            )
    }

    /// A board in order: both tokens stand on the board, the walls keep to
    /// the board and to each other, and both players can reach their goal
    /// rows.
    pub open spec fn inv(self) -> bool {
        &&& on_board(self.up_player)
        &&& on_board(self.down_player)
        &&& self.walls_ok()
        &&& self.both_can_win()
    }

    /// Whether the token on `from` may jump straight over the opponent on
    /// `over` to `to`: the opponent stands next to it, `to` lies right behind
    /// the opponent, and no wall crosses either of the two sides.
    pub open spec fn can_jump(self, from: (usize, usize), over: (usize, usize), to: (usize, usize)) -> bool {
        self.step_open(from, over) && self.step_open(over, to) && in_line(from, over, to)
    }

    /// Whether the token on `from` may go round the opponent on `over` to the
    /// cell `to` at the opponent's side: the opponent stands next to it with
    /// no wall between them, a wall stands right behind the opponent, and no
    /// wall crosses the side between the opponent and `to`.
    pub open spec fn can_divert(self, from: (usize, usize), over: (usize, usize), to: (usize, usize)) -> bool {
        &&& self.step_open(from, over)
        &&& self.step_open(over, to)
        &&& to != from
        &&& !in_line(from, over, to)
        &&& exists|behind: (usize, usize)|
            on_board(behind) && adjacent(over, behind) && #[trigger] in_line(from, over, behind) && self.walled(
                over,
                behind,
            )
    }

    /// Whether the token on `from`, with the opponent on `opponent`, may move
    /// to `to`: by a plain step, by a straight jump over the opponent, or by
    /// going round the opponent where a wall stands behind it.
    pub open spec fn legal_move(self, from: (usize, usize), opponent: (usize, usize), to: (usize, usize)) -> bool {
        self.step_open(from, to) || self.can_jump(from, opponent, to) || self.can_divert(from, opponent, to)
    }
}

/// The board of a match: where the two tokens stand, how many walls each
/// player has left, and the walls that have been placed, by their anchors.
///
/// The up player starts in row 0 and heads for row 8, the down player starts
/// in row 8 and heads for row 0.
#[derive(Debug)]
pub struct Quoridor {
    pub up_player: (usize, usize),
    pub down_player: (usize, usize),
    pub up_player_free_walls: usize,
    pub down_player_free_walls: usize,
    pub vertical_walls: Vec<(usize, usize)>,
    pub horizontal_walls: Vec<(usize, usize)>,
}

impl View for Quoridor {
    type V = QuoridorView;

    open spec fn view(&self) -> QuoridorView {
        QuoridorView {
            up_player: self.up_player,
            down_player: self.down_player,
            up_player_free_walls: self.up_player_free_walls,
            down_player_free_walls: self.down_player_free_walls,
            vertical_walls: self.vertical_walls@,
            horizontal_walls: self.horizontal_walls@,
        }
    }
}

/// The smaller and the larger of two numbers.
pub open spec fn sorted_pair(x: usize, y: usize) -> (usize, usize) {
    if x > y {
        (y, x)
    } else {
        (x, y)
    }
}

/// A copy of a list of anchors.
fn copy_walls(walls: &Vec<(usize, usize)>) -> (copy: Vec<(usize, usize)>)
    ensures
        copy@ == walls@,
{
    let mut copy: Vec<(usize, usize)> = Vec::new();
    let mut i: usize = 0;
    while i < walls.len()
        invariant
            i <= walls.len(),
            copy@ == walls@.subrange(0, i as int),
        decreases walls.len() - i,
    {
        copy.push(walls[i]);
        proof {
            assert(copy@ =~= walls@.subrange(0, i + 1));
        }
        i += 1;
    }
    proof {
        assert(walls@.subrange(0, i as int) =~= walls@);
    }
    copy
}

impl Quoridor {
    /// Whether the move from `start_position` to `possible_path` is no plain
    /// step: one of the two is off the board, they do not share a side, or a
    /// wall crosses that side.
    #[verifier::loop_isolation(false)]
    pub fn is_move_blocked_by_wall_or_wrong(
        &self,
        start_position: (usize, usize),
        possible_path: (usize, usize),
    ) -> (blocked: bool)
        ensures
            blocked == !self@.step_open(start_position, possible_path),
    {
        if start_position.0 >= BOARD_SIDE || start_position.1 >= BOARD_SIDE || possible_path.0 >= BOARD_SIDE
            || possible_path.1 >= BOARD_SIDE {
            return true;
        }
        if start_position.0 == possible_path.0 {
            let column_move = Self::sort_positions(possible_path.1, start_position.1);
            if column_move.1 - column_move.0 != 1 {
                return true;
            }
            let mut i: usize = 0;
            while i < self.vertical_walls.len()
                invariant
                    i <= self.vertical_walls@.len(),
                    forall|j: int|
                        0 <= j < i ==> !v_cuts(
                            #[trigger] self.vertical_walls@[j],
                            start_position.0 as int,
                            column_move.0 as int,
                        ),
                decreases self.vertical_walls@.len() - i,
            {
                let wall = self.vertical_walls[i];
                proof {
                    assert(self@.vertical_walls[i as int] == wall);
                }
                if wall.0 == start_position.0 && wall.1 == column_move.0 {
                    return true;
                }
                if start_position.0 != 0 && wall.0 == start_position.0 - 1 && wall.1 == column_move.0 {
                    return true;
                }
                i += 1;
            }
            return false;
        } else if start_position.1 == possible_path.1 {
            let row_move = Self::sort_positions(possible_path.0, start_position.0);
            if row_move.1 - row_move.0 != 1 {
                return true;
            }
            let mut i: usize = 0;
            while i < self.horizontal_walls.len()
                invariant
                    i <= self.horizontal_walls@.len(),
                    forall|j: int|
                        0 <= j < i ==> !h_cuts(
                            #[trigger] self.horizontal_walls@[j],
                            row_move.0 as int,
                            start_position.1 as int,
                        ),
                decreases self.horizontal_walls@.len() - i,
            {
                let wall = self.horizontal_walls[i];
                proof {
                    assert(self@.horizontal_walls[i as int] == wall);
                }
                if wall.1 == start_position.1 && wall.0 == row_move.0 {
                    return true;
                }
                if start_position.1 != 0 && wall.1 == start_position.1 - 1 && wall.0 == row_move.0 {
                    return true;
                }
                i += 1;
            }
            return false;
        }
        true
    }

    /// The two numbers, smaller first.
    fn sort_positions(x: usize, y: usize) -> (pair: (usize, usize))
        ensures
            pair == sorted_pair(x, y),
    {
        if x > y {
            return (y, x);
        }
        (x, y)
    }

    /// Whether a horizontal wall at `new_wall` is clear of the walls that
    /// stand.
    #[verifier::loop_isolation(false)]
    fn wall_h_is_possible(&self, new_wall: (usize, usize)) -> (fits: bool)
        requires
            wall_slot(new_wall),
        ensures
            fits == self@.h_wall_fits(new_wall),
    {
        let mut i: usize = 0;
        while i < self.horizontal_walls.len()
            invariant
                i <= self.horizontal_walls@.len(),
                wall_slot(new_wall),
                forall|j: int| 0 <= j < i ==> !h_clash(#[trigger] self.horizontal_walls@[j], new_wall),
            decreases self.horizontal_walls@.len() - i,
        {
            let wall = self.horizontal_walls[i];
            proof {
                assert(self@.horizontal_walls[i as int] == wall);
            }
            if wall.0 == new_wall.0 && wall.1 == new_wall.1 {
                return false;
            }
            if wall.1 <= 6 && wall.0 == new_wall.0 && wall.1 + 1 == new_wall.1 {
                return false;
            }
            if wall.1 >= 1 && wall.0 == new_wall.0 && wall.1 - 1 == new_wall.1 {
                return false;
            }
            i += 1;
        }
        !Self::contains_wall(&self.vertical_walls, new_wall)
    }

    /// Whether a vertical wall at `new_wall` is clear of the walls that stand.
    #[verifier::loop_isolation(false)]
    fn wall_v_is_possible(&self, new_wall: (usize, usize)) -> (fits: bool)
        requires
            wall_slot(new_wall),
        ensures
            fits == self@.v_wall_fits(new_wall),
    {
        let mut i: usize = 0;
        while i < self.vertical_walls.len()
            invariant
                i <= self.vertical_walls@.len(),
                wall_slot(new_wall),
                forall|j: int| 0 <= j < i ==> !v_clash(#[trigger] self.vertical_walls@[j], new_wall),
            decreases self.vertical_walls@.len() - i,
        {
            let wall = self.vertical_walls[i];
            proof {
                assert(self@.vertical_walls[i as int] == wall);
            }
            if wall.0 == new_wall.0 && wall.1 == new_wall.1 {
                return false;
            }
            if wall.0 <= 6 && wall.0 + 1 == new_wall.0 && wall.1 == new_wall.1 {
                return false;
            }
            if wall.0 >= 1 && wall.0 - 1 == new_wall.0 && wall.1 == new_wall.1 {
                return false;
            }
            i += 1;
        }
        !Self::contains_wall(&self.horizontal_walls, new_wall)
    }

    /// Whether `wall` is among `walls`.
    #[verifier::loop_isolation(false)]
    fn contains_wall(walls: &Vec<(usize, usize)>, wall: (usize, usize)) -> (found: bool)
        ensures
            found == walls@.contains(wall),
    {
        let mut i: usize = 0;
        while i < walls.len()
            invariant
                i <= walls@.len(),
                forall|j: int| 0 <= j < i ==> walls@[j] != wall,
            decreases walls@.len() - i,
        {
            if walls[i].0 == wall.0 && walls[i].1 == wall.1 {
                proof {
                    assert(walls@[i as int] == wall);
                }
                return true;
            }
            i += 1;
        }
        false
    }

    /// The cells that can be entered from `from_position` in one plain step:
    /// up, right, down, left, in that order.
    pub fn build_possible_paths(&self, from_position: (usize, usize)) -> (paths: Vec<(usize, usize)>)
        ensures
            paths@ == self@.open_steps(from_position),
    {
        let mut possible_paths: Vec<(usize, usize)> = Vec::new();
        if from_position.0 > 0 {
            let new_position = (from_position.0 - 1, from_position.1);
            if !self.is_move_blocked_by_wall_or_wrong(from_position, new_position) {
                possible_paths.push(new_position);
            }
        }
        let ghost first = possible_paths@;
        if from_position.1 < 8 {
            let new_position = (from_position.0, from_position.1 + 1);
            if !self.is_move_blocked_by_wall_or_wrong(from_position, new_position) {
                possible_paths.push(new_position);
            }
        }
        let ghost second = possible_paths@;
        if from_position.0 < 8 {
            let new_position = (from_position.0 + 1, from_position.1);
            if !self.is_move_blocked_by_wall_or_wrong(from_position, new_position) {
                possible_paths.push(new_position);
            }
        }
        let ghost third = possible_paths@;
        if from_position.1 > 0 {
            let new_position = (from_position.0, from_position.1 - 1);
            if !self.is_move_blocked_by_wall_or_wrong(from_position, new_position) {
                possible_paths.push(new_position);
            }
        }
        proof {
            assert(possible_paths@ =~= self@.open_steps(from_position));
        }
        possible_paths
    }
}


/// The distance in rows from `position` to the row that `target` names, on
/// the board; 0 where `target` names no row of the board.
pub open spec fn row_distance(position: (usize, usize), target: (Option<usize>, Option<usize>)) -> nat {
    match target.0 {
        Some(row) => if on_board(position) && row < 9 {
            if position.0 > row {
                (position.0 - row) as nat
            } else {
                (row - position.0) as nat
            }
        } else {
            0
        },
        None => 0,
    }
}

/// The plain steps are the same in both directions.
pub proof fn lemma_step_symmetric(board: QuoridorView, a: (usize, usize), b: (usize, usize))
    ensures
        board.step_open(a, b) == board.step_open(b, a),
{
}

/// The cells listed as open steps from `a` are those that a plain step from
/// `a` leads to.
pub proof fn lemma_open_steps(board: QuoridorView, a: (usize, usize), b: (usize, usize))
    ensures
        board.open_steps(a).contains(b) == board.step_open(a, b),
{
    let up = ((a.0 - 1) as usize, a.1);
    let right = (a.0, (a.1 + 1) as usize);
    let down = ((a.0 + 1) as usize, a.1);
    let left = (a.0, (a.1 - 1) as usize);
    let ups = if a.0 > 0 && board.step_open(a, up) {
        seq![up]
    } else {
        Seq::empty()
    };
    let rights = if a.1 < 8 && board.step_open(a, right) {
        seq![right]
    } else {
        Seq::empty()
    };
    let downs = if a.0 < 8 && board.step_open(a, down) {
        seq![down]
    } else {
        Seq::empty()
    };
    let lefts = if a.1 > 0 && board.step_open(a, left) {
        seq![left]
    } else {
        Seq::empty()
    };
    let all = ups + rights + downs + lefts;
    assert(all == board.open_steps(a));
    if board.step_open(a, b) {
        if b.0 + 1 == a.0 {
            assert(b == up);
            assert(all[0] == b);
        } else if a.1 + 1 == b.1 {
            assert(b == right);
            assert(all[ups.len() as int] == b);
        } else if a.0 + 1 == b.0 {
            assert(b == down);
            assert(all[(ups.len() + rights.len()) as int] == b);
        } else {
            assert(b == left);
            assert(all[(ups.len() + rights.len() + downs.len()) as int] == b);
        }
    }
    if all.contains(b) {
        let i = choose|i: int| 0 <= i < all.len() && all[i] == b;
        if i < ups.len() {
            assert(all[i] == ups[i]);
        } else if i < ups.len() + rights.len() {
            assert(all[i] == rights[i - ups.len()]);
        } else if i < ups.len() + rights.len() + downs.len() {
            assert(all[i] == downs[i - ups.len() - rights.len()]);
        } else {
            assert(all[i] == lefts[i - ups.len() - rights.len() - downs.len()]);
        }
    }
}

impl PathGenerator for Quoridor {
    open spec fn paths_from(&self, from: (usize, usize)) -> Seq<(usize, usize)> {
        self@.open_steps(from)
    }

    open spec fn heuristic(&self, position: (usize, usize), target: (Option<usize>, Option<usize>)) -> nat {
        row_distance(position, target)
    }

    open spec fn step_cost(&self, from: (usize, usize), to: (usize, usize)) -> nat {
        1
    }

    open spec fn contains(&self, position: (usize, usize)) -> bool {
        on_board(position)
    }

    open spec fn node_index(&self, position: (usize, usize)) -> nat {
        (position.0 * 9 + position.1) as nat
    }

    open spec fn node_limit(&self) -> nat {
        81
    }

    open spec fn cost_limit(&self) -> nat {
        8
    }

    proof fn lemma_step(&self, from: (usize, usize), i: int) {
        let to = self@.open_steps(from)[i];
        assert(self@.open_steps(from).contains(to));
        lemma_open_steps(self@, from, to);
    }

    proof fn lemma_numbering(&self, a: (usize, usize), b: (usize, usize)) {
    }

    proof fn lemma_limits(&self, position: (usize, usize), target: (Option<usize>, Option<usize>)) {
    }

    proof fn lemma_consistent(&self, from: (usize, usize), i: int, target: (Option<usize>, Option<usize>)) {
        let to = self@.open_steps(from)[i];
        assert(self@.open_steps(from).contains(to));
        lemma_open_steps(self@, from, to);
    }

    fn generate_paths(&self, from_position: (usize, usize)) -> (r: Vec<(usize, usize)>) {
        self.build_possible_paths(from_position)
    }

    fn calculate_heuristic_cost(
        &self,
        position: (usize, usize),
        target: (Option<usize>, Option<usize>),
    ) -> (r: usize) {
        match target.0 {
            Some(target_row) => {
                if position.0 >= BOARD_SIDE || position.1 >= BOARD_SIDE || target_row >= BOARD_SIDE {
                    return 0;
                }
                if position.0 > target_row {
                    return position.0 - target_row;
                }
                target_row - position.0
            },
            None => 0,
        }
    }

    fn calculate_cost(&self, current_position: (usize, usize), next_position: (usize, usize)) -> (r: usize) {
        1
    }
}

/// On a board, the paths of the search are the walks, and a path costs one
/// for each of its steps.
pub proof fn lemma_path_is_walk(board: &Quoridor, path: Seq<(usize, usize)>)
    ensures
        is_path(board, path) == board@.is_walk(path),
        path.len() >= 1 ==> path_cost(board, path) == path.len() - 1,
    decreases path.len(),
{
    if path.len() >= 1 {
        if is_path(board, path) {
            assert forall|i: int| 0 <= i < path.len() - 1 implies #[trigger] board@.walk_step(path, i) by {
                assert(path_step(board, path, i));
                lemma_open_steps(board@, path[i], path[i + 1]);
            }
        }
        if board@.is_walk(path) {
            assert forall|i: int| 0 <= i < path.len() - 1 implies #[trigger] path_step(board, path, i) by {
                assert(board@.walk_step(path, i));
                lemma_open_steps(board@, path[i], path[i + 1]);
            }
        }
        if path.len() >= 2 {
            lemma_path_is_walk(board, path.drop_last());
        }
    }
}

/// A walk with one more plain step in front of it is a walk from the cell
/// that the step starts at.
pub proof fn lemma_walk_extend(board: QuoridorView, walk: Seq<(usize, usize)>, from: (usize, usize))
    requires
        board.is_walk(walk),
        board.step_open(from, walk[0]),
    ensures
        board.is_walk(seq![from] + walk),
        (seq![from] + walk)[0] == from,
        (seq![from] + walk).last() == walk.last(),
{
    let longer = seq![from] + walk;
    assert forall|i: int| 0 <= i < longer.len() - 1 implies #[trigger] board.walk_step(longer, i) by {
        if i > 0 {
            assert(board.walk_step(walk, i - 1));
            assert(longer[i] == walk[i - 1]);
            assert(longer[i + 1] == walk[i]);
        }
    }
}

/// A cell from which a plain step leads to a cell with a path to a row has a
/// path to that row itself.
pub proof fn lemma_path_from_neighbour(board: QuoridorView, from: (usize, usize), next: (usize, usize), row: usize)
    requires
        board.step_open(from, next),
        board.has_path(next, row),
    ensures
        board.has_path(from, row),
{
    let walk = choose|walk: Seq<(usize, usize)>| board.leads(walk, next, row);
    lemma_walk_extend(board, walk, from);
    assert(board.leads(seq![from] + walk, from, row));
}

/// The tokens do not matter to the paths: two boards with the same walls
/// have the same walks.
pub proof fn lemma_same_walls(a: QuoridorView, b: QuoridorView, from: (usize, usize), row: usize)
    requires
        a.horizontal_walls == b.horizontal_walls,
        a.vertical_walls == b.vertical_walls,
    ensures
        a.has_path(from, row) == b.has_path(from, row),
{
    if a.has_path(from, row) {
        let walk = choose|walk: Seq<(usize, usize)>| a.leads(walk, from, row);
        assert forall|i: int| 0 <= i < walk.len() - 1 implies #[trigger] b.walk_step(walk, i) by {
            assert(a.walk_step(walk, i));
        }
        assert(b.leads(walk, from, row));
    }
    if b.has_path(from, row) {
        let walk = choose|walk: Seq<(usize, usize)>| b.leads(walk, from, row);
        assert forall|i: int| 0 <= i < walk.len() - 1 implies #[trigger] a.walk_step(walk, i) by {
            assert(b.walk_step(walk, i));
        }
        assert(a.leads(walk, from, row));
    }
}

/// A legal move keeps the mover's path: from where the token lands, some walk
/// leads back to where it stood and on to the row.
pub proof fn lemma_move_keeps_path(
    board: QuoridorView,
    from: (usize, usize),
    opponent: (usize, usize),
    to: (usize, usize),
    row: usize,
)
    requires
        board.legal_move(from, opponent, to),
        board.has_path(from, row),
    ensures
        board.has_path(to, row),
        on_board(to),
{
    lemma_step_symmetric(board, from, to);
    lemma_step_symmetric(board, from, opponent);
    lemma_step_symmetric(board, opponent, to);
    if board.step_open(from, to) {
        lemma_path_from_neighbour(board, to, from, row);
    } else {
        lemma_path_from_neighbour(board, opponent, from, row);
        lemma_path_from_neighbour(board, to, opponent, row);
    }
}

impl Clone for Quoridor {
    fn clone(&self) -> (copy: Self)
        ensures
            copy@ == self@,
    {
        let copy = Quoridor {
            up_player: self.up_player,
            down_player: self.down_player,
            up_player_free_walls: self.up_player_free_walls,
            down_player_free_walls: self.down_player_free_walls,
            vertical_walls: copy_walls(&self.vertical_walls),
            horizontal_walls: copy_walls(&self.horizontal_walls),
        };
        copy
    }
}

impl Quoridor {
    /// The board at the start of a match: the up player in the middle of row
    /// 0, the down player in the middle of row 8, nine walls each, none
    /// placed.
    pub fn new() -> (board: Self)
        ensures
            board@.up_player == (0usize, 4usize),
            board@.down_player == (8usize, 4usize),
            board@.up_player_free_walls == 9,
            board@.down_player_free_walls == 9,
            board@.vertical_walls.len() == 0,
            board@.horizontal_walls.len() == 0,
            board@.inv(),
    {
        let board = Self {
            up_player: (0, 4),
            down_player: (8, 4),
            up_player_free_walls: STARTING_WALLS,
            down_player_free_walls: STARTING_WALLS,
            vertical_walls: Vec::new(),
            horizontal_walls: Vec::new(),
        };
        proof {
            let down_the_middle = Seq::new(9, |i: int| (i as usize, 4usize));
            assert forall|i: int| 0 <= i < 8 implies #[trigger] board@.walk_step(down_the_middle, i) by {}
            assert(board@.leads(down_the_middle, (0usize, 4usize), 8));
            let up_the_middle = Seq::new(9, |i: int| ((8 - i) as usize, 4usize));
            assert forall|i: int| 0 <= i < 8 implies #[trigger] board@.walk_step(up_the_middle, i) by {}
            assert(board@.leads(up_the_middle, (8usize, 4usize), 0));
        }
        board
    }

    /// A shortest path from `player` to row `target`, which begins at `player`
    /// and ends in that row, or `None` where the walls leave no path.
    ///
    /// Which of several shortest paths comes back is fixed by the order in
    /// which the search tries the steps: up, right, down, left.
    pub fn get_shortest_path(&self, player: (usize, usize), target: usize) -> (path: Option<Vec<(usize, usize)>>)
        ensures
            path matches Some(walk) ==> self@.is_shortest(walk@, player, target),
            path is None ==> !self@.has_path(player, target),
    {
        let path = AStar::run(self, player, (Some(target), None));
        proof {
            let goal = (Some(target), None::<usize>);
            if path is Some {
                let found = path->0@;
                lemma_path_is_walk(self, found);
                assert forall|other: Seq<(usize, usize)>| #[trigger]
                    self@.leads(other, player, target) implies found.len() <= other.len() by {
                    lemma_path_is_walk(self, other);
                    assert(connects(self, other, player, goal));
                    assert(path_cost(self, found) <= path_cost(self, other));
                }
            } else {
                if self@.has_path(player, target) {
                    let walk = choose|walk: Seq<(usize, usize)>| self@.leads(walk, player, target);
                    lemma_path_is_walk(self, walk);
                    assert(connects(self, walk, player, goal));
                }
            }
        }
        path
    }

    /// Whether some path leads from `start_position` to row `target`.
    pub fn player_can_win(&self, start_position: (usize, usize), target: usize) -> (can: bool)
        ensures
            can == self@.has_path(start_position, target),
    {
        let path = self.get_shortest_path(start_position, target);
        proof {
            if path is Some {
                assert(self@.leads(path->0@, start_position, target));
            }
        }
        path.is_some()
    }

    /// Places a horizontal wall at `wall` if that is allowed, and says whether
    /// it did. The wall is put in tentatively and taken out again if it cuts a
    /// player off from the goal row. The players' wall counts are not touched.
    pub fn new_h_wall(&mut self, wall: (usize, usize)) -> (placed: bool)
        ensures
            placed == old(self)@.h_wall_allowed(wall),
            placed ==> final(self)@ == old(self)@.with_h_wall(wall),
            !placed ==> final(self)@ == old(self)@,
            old(self)@.inv() ==> final(self)@.inv(),
    {
        if wall.0 >= WALL_SIDE || wall.1 >= WALL_SIDE {
            return false;
        }
        if !self.wall_h_is_possible(wall) {
            return false;
        }
        self.horizontal_walls.push(wall);
        proof {
            assert(self@ == old(self)@.with_h_wall(wall));
        }
        if self.player_can_win(self.up_player, 8) && self.player_can_win(self.down_player, 0) {
            proof {
                if old(self)@.inv() {
                    lemma_h_wall_keeps_order(old(self)@, wall);
                }
            }
            return true;
        }
        self.horizontal_walls.pop();
        proof {
            assert(self@.horizontal_walls =~= old(self)@.horizontal_walls);
            assert(self@ == old(self)@);
        }
        false
    }

    /// Places a vertical wall at `wall` if that is allowed, and says whether
    /// it did. The wall is put in tentatively and taken out again if it cuts a
    /// player off from the goal row. The players' wall counts are not touched.
    pub fn new_v_wall(&mut self, wall: (usize, usize)) -> (placed: bool)
        ensures
            placed == old(self)@.v_wall_allowed(wall),
            placed ==> final(self)@ == old(self)@.with_v_wall(wall),
            !placed ==> final(self)@ == old(self)@,
            old(self)@.inv() ==> final(self)@.inv(),
    {
        if wall.0 >= WALL_SIDE || wall.1 >= WALL_SIDE {
            return false;
        }
        if !self.wall_v_is_possible(wall) {
            return false;
        }
        self.vertical_walls.push(wall);
        proof {
            assert(self@ == old(self)@.with_v_wall(wall));
        }
        if self.player_can_win(self.up_player, 8) && self.player_can_win(self.down_player, 0) {
            proof {
                if old(self)@.inv() {
                    lemma_v_wall_keeps_order(old(self)@, wall);
                }
            }
            return true;
        }
        self.vertical_walls.pop();
        proof {
            assert(self@.vertical_walls =~= old(self)@.vertical_walls);
            assert(self@ == old(self)@);
        }
        false
    }
}

/// A horizontal wall that is clear of the others keeps the walls in order.
pub proof fn lemma_h_wall_keeps_order(board: QuoridorView, wall: (usize, usize))
    requires
        board.walls_ok(),
        wall_slot(wall),
        board.h_wall_fits(wall),
    ensures
        board.with_h_wall(wall).walls_ok(),
{
    let after = board.with_h_wall(wall);
    let n = board.horizontal_walls.len() as int;
    assert forall|i: int| 0 <= i < after.horizontal_walls.len() implies wall_slot(
        #[trigger] after.horizontal_walls[i],
    ) && !after.vertical_walls.contains(after.horizontal_walls[i]) by {
        if i < n {
            assert(after.horizontal_walls[i] == board.horizontal_walls[i]);
        }
    }
    assert forall|i: int, j: int| 0 <= i < j < after.horizontal_walls.len() implies !h_clash(
        #[trigger] after.horizontal_walls[i],
        #[trigger] after.horizontal_walls[j],
    ) by {
        assert(after.horizontal_walls[i] == board.horizontal_walls[i]);
        if j < n {
            assert(after.horizontal_walls[j] == board.horizontal_walls[j]);
        }
    }
}

/// A vertical wall that is clear of the others keeps the walls in order.
pub proof fn lemma_v_wall_keeps_order(board: QuoridorView, wall: (usize, usize))
    requires
        board.walls_ok(),
        wall_slot(wall),
        board.v_wall_fits(wall),
    ensures
        board.with_v_wall(wall).walls_ok(),
{
    let after = board.with_v_wall(wall);
    let n = board.vertical_walls.len() as int;
    assert forall|i: int| 0 <= i < after.vertical_walls.len() implies wall_slot(
        #[trigger] after.vertical_walls[i],
    ) by {
        if i < n {
            assert(after.vertical_walls[i] == board.vertical_walls[i]);
        }
    }
    assert forall|i: int, j: int| 0 <= i < j < after.vertical_walls.len() implies !v_clash(
        #[trigger] after.vertical_walls[i],
        #[trigger] after.vertical_walls[j],
    ) by {
        assert(after.vertical_walls[i] == board.vertical_walls[i]);
        if j < n {
            assert(after.vertical_walls[j] == board.vertical_walls[j]);
        }
    }
    assert forall|i: int| 0 <= i < after.horizontal_walls.len() implies !after.vertical_walls.contains(
        #[trigger] after.horizontal_walls[i],
    ) by {
        let h = after.horizontal_walls[i];
        if after.vertical_walls.contains(h) {
            let k = choose|k: int| 0 <= k < after.vertical_walls.len() && after.vertical_walls[k] == h;
            if k < n {
                assert(board.vertical_walls[k] == h);
                assert(board.vertical_walls.contains(h));
            } else {
                assert(board.horizontal_walls.contains(wall));
            }
        }
    }
}


impl Quoridor {
    /// Whether the token on `from`, with the opponent on `opponent`, may move
    /// to `to`.
    pub fn is_move_allowed(&self, from: (usize, usize), opponent: (usize, usize), to: (usize, usize)) -> (allowed:
        bool)
        ensures
            allowed == self@.legal_move(from, opponent, to),
    {
        if !self.is_move_blocked_by_wall_or_wrong(from, to) {
            return true;
        }
        if self.is_move_blocked_by_wall_or_wrong(from, opponent) || self.is_move_blocked_by_wall_or_wrong(
            opponent,
            to,
        ) {
            return false;
        }
        if from.0 + to.0 == 2 * opponent.0 && from.1 + to.1 == 2 * opponent.1 {
            return true;
        }
        if to.0 == from.0 && to.1 == from.1 {
            return false;
        }
        let behind: (usize, usize) = if opponent.0 == from.0 {
            if opponent.1 > from.1 {
                (opponent.0, opponent.1 + 1)
            } else if opponent.1 >= 1 {
                (opponent.0, opponent.1 - 1)
            } else {
                (opponent.0, BOARD_SIDE)
            }
        } else {
            if opponent.0 > from.0 {
                (opponent.0 + 1, opponent.1)
            } else if opponent.0 >= 1 {
                (opponent.0 - 1, opponent.1)
            } else {
                (BOARD_SIDE, opponent.1)
            }
        };
        if behind.0 >= BOARD_SIDE || behind.1 >= BOARD_SIDE {
            proof {
                assert forall|other: (usize, usize)|
                    on_board(other) && adjacent(opponent, other) implies !#[trigger] in_line(from, opponent, other) by {}
            }
            return false;
        }
        let walled = self.is_move_blocked_by_wall_or_wrong(opponent, behind);
        proof {
            assert(in_line(from, opponent, behind));
            assert forall|other: (usize, usize)| #[trigger] in_line(from, opponent, other) implies other == behind by {}
        }
        walled
    }

    /// Moves the up player's token to `new_position` if the rules allow the
    /// move, and says whether it did.
    pub fn try_moving_up_player(&mut self, new_position: (usize, usize)) -> (moved: bool)
        ensures
            moved == old(self)@.legal_move(old(self)@.up_player, old(self)@.down_player, new_position),
            moved ==> final(self)@ == (QuoridorView { up_player: new_position, ..old(self)@ }),
            !moved ==> final(self)@ == old(self)@,
            old(self)@.inv() ==> final(self)@.inv(),
    {
        if !self.is_move_allowed(self.up_player, self.down_player, new_position) {
            return false;
        }
        self.up_player = new_position;
        proof {
            if old(self)@.inv() {
                lemma_move_keeps_path(old(self)@, old(self)@.up_player, old(self)@.down_player, new_position, 8);
                lemma_same_walls(old(self)@, self@, new_position, 8);
                lemma_same_walls(old(self)@, self@, self@.down_player, 0);
            }
        }
        true
    }

    /// Moves the down player's token to `new_position` if the rules allow the
    /// move, and says whether it did.
    pub fn try_moving_down_player(&mut self, new_position: (usize, usize)) -> (moved: bool)
        ensures
            moved == old(self)@.legal_move(old(self)@.down_player, old(self)@.up_player, new_position),
            moved ==> final(self)@ == (QuoridorView { down_player: new_position, ..old(self)@ }),
            !moved ==> final(self)@ == old(self)@,
            old(self)@.inv() ==> final(self)@.inv(),
    {
        if !self.is_move_allowed(self.down_player, self.up_player, new_position) {
            return false;
        }
        self.down_player = new_position;
        proof {
            if old(self)@.inv() {
                lemma_move_keeps_path(old(self)@, old(self)@.down_player, old(self)@.up_player, new_position, 0);
                lemma_same_walls(old(self)@, self@, new_position, 0);
                lemma_same_walls(old(self)@, self@, self@.up_player, 8);
            }
        }
        true
    }

    /// Moves the token of the side that `player` names, `"up"` or `"down"`,
    /// to `new_position` if the rules allow the move, and says whether it did.
    /// Any other name moves nothing.
    pub fn move_player(&mut self, new_position: (usize, usize), player: &str) -> (moved: bool)
        ensures
            moved == if player@ == "up"@ {
                old(self)@.legal_move(old(self)@.up_player, old(self)@.down_player, new_position)
            } else if player@ == "down"@ {
                old(self)@.legal_move(old(self)@.down_player, old(self)@.up_player, new_position)
            } else {
                false
            },
            moved && player@ == "up"@ ==> final(self)@ == (QuoridorView {
                up_player: new_position,
                ..old(self)@
            }),
            moved && player@ != "up"@ ==> final(self)@ == (QuoridorView {
                down_player: new_position,
                ..old(self)@
            }),
            !moved ==> final(self)@ == old(self)@,
            old(self)@.inv() ==> final(self)@.inv(),
    {
        if same_text(player, "up") {
            self.try_moving_up_player(new_position)
        } else if same_text(player, "down") {
            self.try_moving_down_player(new_position)
        } else {
            false
        }
    }

    /// Places a wall at `wall` if that is allowed, horizontal for the type
    /// `"h"` and vertical for `"v"`, and says whether it did. Any other type
    /// places nothing.
    pub fn new_wall(&mut self, wall: (usize, usize), wall_type: &str) -> (placed: bool)
        ensures
            placed == if wall_type@ == "h"@ {
                old(self)@.h_wall_allowed(wall)
            } else if wall_type@ == "v"@ {
                old(self)@.v_wall_allowed(wall)
            } else {
                false
            },
            placed && wall_type@ == "h"@ ==> final(self)@ == old(self)@.with_h_wall(wall),
            placed && wall_type@ != "h"@ ==> final(self)@ == old(self)@.with_v_wall(wall),
            !placed ==> final(self)@ == old(self)@,
            old(self)@.inv() ==> final(self)@.inv(),
    {
        if same_text(wall_type, "h") {
            self.new_h_wall(wall)
        } else if same_text(wall_type, "v") {
            self.new_v_wall(wall)
        } else {
            false
        }
    }
}

/// Every walk on a board with one more wall is a walk on the board without
/// it.
pub proof fn lemma_walk_without_wall(board: QuoridorView, more: QuoridorView, walk: Seq<(usize, usize)>)
    requires
        more.is_walk(walk),
        more == board.with_h_wall(more.horizontal_walls.last()) || more == board.with_v_wall(
            more.vertical_walls.last(),
        ),
    ensures
        board.is_walk(walk),
{
    assert forall|i: int| 0 <= i < walk.len() - 1 implies #[trigger] board.walk_step(walk, i) by {
        let a = walk[i];
        let b = walk[i + 1];
        assert(more.walk_step(walk, i));
        if board.walled(a, b) {
            if a.0 == b.0 {
                let k = choose|k: int|
                    0 <= k < board.vertical_walls.len() && v_cuts(
                        #[trigger] board.vertical_walls[k],
                        a.0 as int,
                        (if a.1 < b.1 {
                            a.1
                        } else {
                            b.1
                        }) as int,
                    );
                assert(more.vertical_walls[k] == board.vertical_walls[k]);
            } else {
                let k = choose|k: int|
                    0 <= k < board.horizontal_walls.len() && h_cuts(
                        #[trigger] board.horizontal_walls[k],
                        (if a.0 < b.0 {
                            a.0
                        } else {
                            b.0
                        }) as int,
                        a.1 as int,
                    );
                assert(more.horizontal_walls[k] == board.horizontal_walls[k]);
            }
        }
    }
}

/// A wall never shortens a path: where a player still has a path after one
/// more wall was placed, horizontal or vertical, the shortest path is no
/// shorter than it was before.
pub proof fn lemma_wall_never_shortens(
    board: QuoridorView,
    wall: (usize, usize),
    horizontal: bool,
    from: (usize, usize),
    row: usize,
    before: Seq<(usize, usize)>,
    after: Seq<(usize, usize)>,
)
    requires
        board.is_shortest(before, from, row),
        horizontal ==> board.with_h_wall(wall).is_shortest(after, from, row),
        !horizontal ==> board.with_v_wall(wall).is_shortest(after, from, row),
    ensures
        before.len() <= after.len(),
{
    let more = if horizontal {
        board.with_h_wall(wall)
    } else {
        board.with_v_wall(wall)
    };
    lemma_walk_without_wall(board, more, after);
    assert(board.leads(after, from, row));
}

/// A walk has at least as many steps as its two ends are rows apart.
pub proof fn lemma_walk_spans_rows(board: QuoridorView, walk: Seq<(usize, usize)>)
    requires
        board.is_walk(walk),
    ensures
        walk.len() >= walk.last().0 - walk[0].0 + 1,
        walk.len() >= walk[0].0 - walk.last().0 + 1,
    decreases walk.len(),
{
    if walk.len() >= 2 {
        let shorter = walk.drop_last();
        assert forall|i: int| 0 <= i < shorter.len() - 1 implies #[trigger] board.walk_step(shorter, i) by {
            assert(board.walk_step(walk, i));
        }
        lemma_walk_spans_rows(board, shorter);
        assert(board.walk_step(walk, walk.len() - 2));
    }
}

/// On a board without walls the shortest path from the middle of row 0 to
/// row 8 has nine cells, eight steps.
pub proof fn lemma_open_board_path(board: QuoridorView)
    requires
        board.horizontal_walls.len() == 0,
        board.vertical_walls.len() == 0,
    ensures
        board.path_len((0, 4), 8) == 9,
{
    let straight = Seq::new(9, |i: int| (i as usize, 4usize));
    assert forall|i: int| 0 <= i < 8 implies #[trigger] board.walk_step(straight, i) by {}
    assert(board.leads(straight, (0usize, 4usize), 8));
    assert forall|other: Seq<(usize, usize)>| #[trigger]
        board.leads(other, (0usize, 4usize), 8) implies straight.len() <= other.len() by {
        lemma_walk_spans_rows(board, other);
    }
    lemma_path_len(board, straight, (0usize, 4usize), 8);
}

/// All shortest walks between a cell and a row have the same length, which
/// `path_len` names.
pub proof fn lemma_path_len(board: QuoridorView, walk: Seq<(usize, usize)>, from: (usize, usize), row: usize)
    requires
        board.is_shortest(walk, from, row),
    ensures
        board.path_len(from, row) == walk.len(),
{
    let chosen = choose|chosen: Seq<(usize, usize)>| board.is_shortest(chosen, from, row);
    assert(board.leads(chosen, from, row));
    assert(board.leads(walk, from, row));
}


/// How a cell shows in a drawing of the board: marked where a token stands
/// on it.
pub open spec fn cell_text(board: QuoridorView, row: usize, col: usize) -> Seq<char> {
    if (row, col) == board.up_player || (row, col) == board.down_player {
        seq!['[', 'X', ']']
    } else {
        seq!['[', ' ', ']']
    }
}

/// Whether a vertical wall shows right of the cell: one is anchored at the
/// cell or at the cell above it.
pub open spec fn shows_v_wall(board: QuoridorView, row: usize, col: usize) -> bool {
    board.vertical_walls.contains((row, col)) || (row >= 1 && board.vertical_walls.contains(
        ((row - 1) as usize, col),
    ))
}

/// Whether a horizontal wall shows under the cell: one is anchored at the
/// cell or at the cell left of it.
pub open spec fn shows_h_wall(board: QuoridorView, row: usize, col: usize) -> bool {
    board.horizontal_walls.contains((row, col)) || (col >= 1 && board.horizontal_walls.contains(
        (row, (col - 1) as usize),
    ))
}

/// The first `cols` cells of the line that shows row `row`: each cell, and
/// behind it a bar where a vertical wall shows and a blank where none does.
pub open spec fn line_text(board: QuoridorView, row: usize, cols: nat) -> Seq<char>
    decreases cols,
{
    if cols == 0 {
        Seq::empty()
    } else {
        let col = (cols - 1) as usize;
        line_text(board, row, (cols - 1) as nat) + cell_text(board, row, col) + seq![
            if shows_v_wall(board, row, col) {
                '|'
            } else {
                ' '
            },
        ]
    }
}

/// The first `cols` cells of the line under row `row`: four dashes where a
/// horizontal wall shows under the cell, four blanks where none does.
pub open spec fn underline_text(board: QuoridorView, row: usize, cols: nat) -> Seq<char>
    decreases cols,
{
    if cols == 0 {
        Seq::empty()
    } else {
        let col = (cols - 1) as usize;
        underline_text(board, row, (cols - 1) as nat) + if shows_h_wall(board, row, col) {
            seq!['-', '-', '-', '-']
        } else {
            seq![' ', ' ', ' ', ' ']
        }
    }
}

/// The drawing of the first `rows` rows of the board: for each row its line
/// and the line under it.
pub open spec fn drawing(board: QuoridorView, rows: nat) -> Seq<Seq<char>>
    decreases rows,
{
    if rows == 0 {
        Seq::empty()
    } else {
        let row = (rows - 1) as usize;
        drawing(board, (rows - 1) as nat).push(line_text(board, row, 9)).push(underline_text(board, row, 9))
    }
}

impl Quoridor {
    /// The board as text, ready to be printed: for each of the nine rows a
    /// line with its cells and the vertical walls, and a line with the
    /// horizontal walls under it.
    pub fn draw(&self) -> (lines: Vec<String>)
        ensures
            texts_of(lines@) == drawing(self@, 9),
    {
        let mut lines: Vec<String> = Vec::new();
        let mut row_id: usize = 0;
        while row_id < BOARD_SIDE
            invariant
                row_id <= 9,
                texts_of(lines@) == drawing(self@, row_id as nat),
            decreases 9 - row_id,
        {
            let mut line = String::new();
            let mut underline = String::new();
            let mut col_id: usize = 0;
            while col_id < BOARD_SIDE
                invariant
                    row_id < 9,
                    col_id <= 9,
                    line@ == line_text(self@, row_id, col_id as nat),
                    underline@ == underline_text(self@, row_id, col_id as nat),
                decreases 9 - col_id,
            {
                let ghost line_before = line@;
                let ghost underline_before = underline@;
                line.push('[');
                if (row_id == self.up_player.0 && col_id == self.up_player.1) || (row_id == self.down_player.0
                    && col_id == self.down_player.1) {
                    line.push('X');
                } else {
                    line.push(' ');
                }
                line.push(']');
                if Self::contains_wall(&self.vertical_walls, (row_id, col_id)) || (row_id >= 1 && Self::contains_wall(
                    &self.vertical_walls,
                    (row_id - 1, col_id),
                )) {
                    line.push('|');
                } else {
                    line.push(' ');
                }
                let dash = Self::contains_wall(&self.horizontal_walls, (row_id, col_id)) || (col_id >= 1
                    && Self::contains_wall(&self.horizontal_walls, (row_id, col_id - 1)));
                let mark = if dash {
                    '-'
                } else {
                    ' '
                };
                underline.push(mark);
                underline.push(mark);
                underline.push(mark);
                underline.push(mark);
                proof {
                    let wall_mark = if shows_v_wall(self@, row_id, col_id) {
                        '|'
                    } else {
                        ' '
                    };
                    assert(line@ =~= line_before + cell_text(self@, row_id, col_id) + seq![wall_mark]);
                    assert(underline@ =~= underline_before + seq![mark, mark, mark, mark]);
                }
                col_id += 1;
            }
            let ghost lines_before = lines@;
            let ghost line_view = line@;
            let ghost underline_view = underline@;
            lines.push(line);
            lines.push(underline);
            proof {
                assert(texts_of(lines@) =~= texts_of(lines_before).push(line_view).push(underline_view));
            }
            row_id += 1;
        }
        lines
    }
}

} // verus!
