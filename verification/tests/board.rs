use quoridor::game::Quoridor;

fn fenced_board() -> Quoridor {
    let mut new_game = Quoridor::new();
    new_game.new_h_wall((1, 0));
    new_game.new_h_wall((1, 2));
    new_game.new_h_wall((1, 4));
    new_game.new_h_wall((1, 6));
    new_game.new_v_wall((2, 6));
    new_game
}

#[test]
fn create_wall() {
    let mut new_game = Quoridor::new();
    assert!(new_game.new_h_wall((1, 0)));
    assert!(new_game.new_h_wall((1, 2)));
    assert!(new_game.new_h_wall((1, 4)));
    assert!(new_game.new_h_wall((1, 6)));
    assert!(new_game.new_v_wall((2, 6)));
    assert!(!new_game.new_h_wall((3, 7)));
}

#[test]
fn make_move() {
    let expected_path = Some(vec![
        (0, 4),
        (1, 4),
        (1, 5),
        (1, 6),
        (1, 7),
        (1, 8),
        (2, 8),
        (3, 8),
        (4, 8),
        (5, 8),
        (6, 8),
        (7, 8),
        (8, 8),
    ]);
    let new_game = fenced_board();
    assert_eq!(new_game.get_shortest_path((0, 4), 8), expected_path);
}

#[test]
fn empty_board_shortest_path_has_eight_steps() {
    let board = Quoridor::new();
    let path = board.get_shortest_path((0, 4), 8).unwrap();
    assert_eq!(path.len(), 9);
    assert_eq!(path[0], (0, 4));
    assert_eq!(path[8].0, 8);
    let expected: Vec<(usize, usize)> = (0..9).map(|i| (i, 4)).collect();
    assert_eq!(path, expected);
    let back = board.get_shortest_path((8, 4), 0).unwrap();
    assert_eq!(back.len(), 9);
}

#[test]
fn path_from_the_goal_row_is_the_cell_itself() {
    let board = Quoridor::new();
    assert_eq!(board.get_shortest_path((8, 2), 8), Some(vec![(8, 2)]));
}

#[test]
fn no_path_to_a_row_off_the_board() {
    let board = Quoridor::new();
    assert_eq!(board.get_shortest_path((0, 4), 9), None);
    assert!(!board.player_can_win((0, 4), 9));
}

#[test]
fn a_wall_never_shortens_the_path() {
    let mut board = Quoridor::new();
    let before = board.get_shortest_path((0, 4), 8).unwrap().len();
    assert!(board.new_h_wall((0, 4)));
    let after = board.get_shortest_path((0, 4), 8).unwrap().len();
    assert_eq!(before, 9);
    assert_eq!(after, 10);
    assert!(board.new_v_wall((5, 5)));
    let later = board.get_shortest_path((0, 4), 8).unwrap().len();
    assert!(later >= after);
}

#[test]
fn every_step_of_a_path_is_open() {
    let board = fenced_board();
    let path = board.get_shortest_path((0, 4), 8).unwrap();
    assert_eq!(path[0], (0, 4));
    assert_eq!(path[path.len() - 1].0, 8);
    for pair in path.windows(2) {
        assert!(!board.is_move_blocked_by_wall_or_wrong(pair[0], pair[1]));
    }
}

#[test]
fn walls_block_the_sides_they_cross() {
    let mut board = Quoridor::new();
    assert!(board.new_h_wall((3, 3)));
    assert!(board.is_move_blocked_by_wall_or_wrong((3, 3), (4, 3)));
    assert!(board.is_move_blocked_by_wall_or_wrong((4, 4), (3, 4)));
    assert!(!board.is_move_blocked_by_wall_or_wrong((3, 5), (4, 5)));
    assert!(!board.is_move_blocked_by_wall_or_wrong((3, 2), (4, 2)));
    assert!(!board.is_move_blocked_by_wall_or_wrong((3, 3), (3, 4)));
    assert!(board.new_v_wall((5, 5)));
    assert!(board.is_move_blocked_by_wall_or_wrong((5, 5), (5, 6)));
    assert!(board.is_move_blocked_by_wall_or_wrong((6, 6), (6, 5)));
    assert!(!board.is_move_blocked_by_wall_or_wrong((7, 5), (7, 6)));
    assert!(!board.is_move_blocked_by_wall_or_wrong((4, 5), (4, 6)));
}

#[test]
fn moves_off_the_board_or_too_far_are_wrong() {
    let board = Quoridor::new();
    assert!(board.is_move_blocked_by_wall_or_wrong((0, 8), (0, 9)));
    assert!(board.is_move_blocked_by_wall_or_wrong((0, 4), (2, 4)));
    assert!(board.is_move_blocked_by_wall_or_wrong((0, 4), (1, 5)));
    assert!(board.is_move_blocked_by_wall_or_wrong((0, 4), (0, 4)));
    assert!(!board.is_move_blocked_by_wall_or_wrong((0, 4), (0, 3)));
}

#[test]
fn possible_paths_come_up_right_down_left() {
    let mut board = Quoridor::new();
    assert_eq!(board.build_possible_paths((4, 4)), vec![(3, 4), (4, 5), (5, 4), (4, 3)]);
    assert_eq!(board.build_possible_paths((0, 0)), vec![(0, 1), (1, 0)]);
    assert_eq!(board.build_possible_paths((8, 8)), vec![(7, 8), (8, 7)]);
    assert!(board.new_h_wall((4, 4)));
    assert_eq!(board.build_possible_paths((4, 4)), vec![(3, 4), (4, 5), (4, 3)]);
    assert_eq!(board.build_possible_paths((9, 9)), vec![]);
}

#[test]
fn overlapping_and_crossing_walls_are_refused() {
    let mut board = Quoridor::new();
    assert!(board.new_h_wall((2, 2)));
    assert!(!board.new_h_wall((2, 2)));
    assert!(!board.new_h_wall((2, 3)));
    assert!(!board.new_h_wall((2, 1)));
    assert!(!board.new_v_wall((2, 2)));
    assert!(board.new_h_wall((2, 4)));
    assert!(board.new_v_wall((2, 3)));
    assert!(!board.new_v_wall((3, 3)));
    assert!(!board.new_v_wall((1, 3)));
    assert!(board.new_v_wall((4, 3)));
    assert_eq!(board.horizontal_walls, vec![(2, 2), (2, 4)]);
    assert_eq!(board.vertical_walls, vec![(2, 3), (4, 3)]);
}

#[test]
fn walls_off_the_board_are_refused() {
    let mut board = Quoridor::new();
    assert!(!board.new_h_wall((8, 0)));
    assert!(!board.new_h_wall((0, 8)));
    assert!(!board.new_v_wall((8, 8)));
    assert!(board.new_h_wall((7, 7)));
    assert!(board.horizontal_walls.len() == 1 && board.vertical_walls.is_empty());
}

#[test]
fn a_refused_wall_leaves_the_board_as_it_was() {
    let mut board = fenced_board();
    let h = board.horizontal_walls.clone();
    let v = board.vertical_walls.clone();
    assert!(!board.new_h_wall((3, 7)));
    assert!(!board.new_h_wall((3, 7)));
    assert_eq!(board.horizontal_walls, h);
    assert_eq!(board.vertical_walls, v);
    assert_eq!(board.up_player, (0, 4));
    assert_eq!(board.down_player, (8, 4));
    assert_eq!(board.up_player_free_walls, 9);
    assert_eq!(board.down_player_free_walls, 9);
}

#[test]
fn both_players_keep_a_path_after_every_placed_wall() {
    let mut board = Quoridor::new();
    let mut placed = 0;
    for row in 0..8 {
        for col in 0..8 {
            let done = if (row + col) % 2 == 0 { board.new_h_wall((row, col)) } else { board.new_v_wall((row, col)) };
            if done {
                placed += 1;
            }
            assert!(board.player_can_win(board.up_player, 8));
            assert!(board.player_can_win(board.down_player, 0));
        }
    }
    assert!(placed > 0);
    assert_eq!(board.horizontal_walls.len() + board.vertical_walls.len(), placed);
}

#[test]
fn plain_steps_move_the_tokens() {
    let mut board = Quoridor::new();
    assert!(board.try_moving_up_player((1, 4)));
    assert_eq!(board.up_player, (1, 4));
    assert!(!board.try_moving_up_player((3, 4)));
    assert!(!board.try_moving_up_player((2, 5)));
    assert!(board.try_moving_down_player((8, 5)));
    assert_eq!(board.down_player, (8, 5));
    assert!(!board.try_moving_down_player((9, 5)));
    assert!(board.move_player((2, 4), "up"));
    assert!(board.move_player((8, 4), "down"));
    assert!(!board.move_player((3, 4), "left"));
    assert_eq!(board.up_player, (2, 4));
    assert_eq!(board.down_player, (8, 4));
}

#[test]
fn a_wall_stops_a_plain_step() {
    let mut board = Quoridor::new();
    assert!(board.new_wall((0, 4), "h"));
    assert!(!board.try_moving_up_player((1, 4)));
    assert!(board.try_moving_up_player((0, 3)));
    assert!(board.try_moving_up_player((1, 3)));
    assert!(board.new_wall((1, 3), "v"));
    assert!(!board.try_moving_up_player((1, 4)));
    assert!(!board.new_wall((5, 5), "x"));
}

fn face_to_face() -> Quoridor {
    let mut board = Quoridor::new();
    for row in 1..=4 {
        assert!(board.try_moving_up_player((row, 4)));
    }
    for row in (5..=7).rev() {
        assert!(board.try_moving_down_player((row, 4)));
    }
    assert_eq!(board.up_player, (4, 4));
    assert_eq!(board.down_player, (5, 4));
    board
}

#[test]
fn a_token_jumps_straight_over_its_neighbour() {
    let mut board = face_to_face();
    assert!(board.is_move_allowed((4, 4), (5, 4), (6, 4)));
    assert!(!board.is_move_allowed((4, 4), (5, 4), (5, 5)));
    assert!(!board.is_move_allowed((4, 4), (5, 4), (6, 5)));
    assert!(board.try_moving_up_player((6, 4)));
    assert_eq!(board.up_player, (6, 4));
    assert!(board.try_moving_down_player((7, 4)));
    assert_eq!(board.down_player, (7, 4));
}

#[test]
fn a_wall_behind_the_neighbour_turns_the_jump_aside() {
    let mut board = face_to_face();
    assert!(board.new_h_wall((5, 4)));
    assert!(!board.is_move_allowed((4, 4), (5, 4), (6, 4)));
    assert!(board.is_move_allowed((4, 4), (5, 4), (5, 5)));
    assert!(board.is_move_allowed((4, 4), (5, 4), (5, 3)));
    assert!(!board.new_v_wall((5, 4)));
    assert!(board.new_v_wall((4, 4)));
    assert!(!board.is_move_allowed((4, 4), (5, 4), (5, 5)));
    assert!(board.is_move_allowed((4, 4), (5, 4), (5, 3)));
    assert!(board.try_moving_up_player((5, 3)));
    assert_eq!(board.up_player, (5, 3));
}

#[test]
fn a_wall_between_the_tokens_stops_every_jump() {
    let mut board = face_to_face();
    assert!(board.new_h_wall((4, 4)));
    assert!(!board.is_move_allowed((4, 4), (5, 4), (5, 4)));
    assert!(!board.is_move_allowed((4, 4), (5, 4), (6, 4)));
    assert!(!board.is_move_allowed((4, 4), (5, 4), (5, 5)));
    assert!(board.is_move_allowed((4, 4), (5, 4), (4, 5)));
}

#[test]
fn a_token_may_step_onto_its_neighbour() {
    let mut board = face_to_face();
    assert!(board.try_moving_up_player((5, 4)));
    assert_eq!(board.up_player, board.down_player);
    assert!(board.try_moving_up_player((6, 4)));
    assert_eq!(board.up_player, (6, 4));
}

#[test]
fn a_copy_of_a_board_is_the_same_board() {
    let board = fenced_board();
    let copy = board.clone();
    assert_eq!(copy.horizontal_walls, board.horizontal_walls);
    assert_eq!(copy.vertical_walls, board.vertical_walls);
    assert_eq!(copy.up_player, board.up_player);
    assert_eq!(copy.down_player, board.down_player);
    assert_eq!(copy.up_player_free_walls, 9);
    assert_eq!(copy.down_player_free_walls, 9);
}

#[test]
fn the_board_is_drawn_row_by_row() {
    let mut board = Quoridor::new();
    assert!(board.new_h_wall((0, 1)));
    assert!(board.new_v_wall((0, 5)));
    let lines = board.draw();
    assert_eq!(lines.len(), 18);
    assert_eq!(lines[0], "[ ] [ ] [ ] [ ] [X] [ ]|[ ] [ ] [ ] ");
    assert_eq!(lines[1], "    --------                        ");
    assert_eq!(lines[2], "[ ] [ ] [ ] [ ] [ ] [ ]|[ ] [ ] [ ] ");
    assert_eq!(lines[3], "                                    ");
    assert_eq!(lines[4], "[ ] [ ] [ ] [ ] [ ] [ ] [ ] [ ] [ ] ");
    assert_eq!(lines[16], "[ ] [ ] [ ] [ ] [X] [ ] [ ] [ ] [ ] ");
    assert_eq!(lines[17], "                                    ");
}
