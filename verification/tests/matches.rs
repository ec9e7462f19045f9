use quoridor::cpu::{CpuPlayer, CPU};
use quoridor::messages::{PlayerMove, PlayerMoveResult};
use quoridor::quoridor_match::QuoridorMatch;

fn two_players() -> QuoridorMatch {
    QuoridorMatch::new_at(&vec!["A".to_owned(), "B".to_owned()], 1_000)
}

#[test]
fn new_match_player_moves() {
    let mut new_game = QuoridorMatch::new(&vec!["pl1".to_owned(), "pl2".to_owned()]);
    let result = matches!(
        new_game.make_move(PlayerMove::QuoridorMove { row: 1, col: 4 }, "pl1"),
        PlayerMoveResult::Accepted
    );
    assert!(result);
    assert_eq!(new_game.get_current_player(), "pl2");
    let result = matches!(
        new_game.make_move(PlayerMove::QuoridorMove { row: 8, col: 5 }, "pl2"),
        PlayerMoveResult::Accepted
    );
    assert!(result);
    assert_eq!(new_game.get_current_player(), "pl1");
}

#[test]
fn new_match_make_borders() {
    let mut new_game = QuoridorMatch::new(&vec!["pl1".to_owned(), "pl2".to_owned()]);
    let result = matches!(
        new_game.make_move(PlayerMove::QuoridorWallH { row: 1, col: 0 }, "pl1"),
        PlayerMoveResult::Accepted
    );
    assert!(result);
    assert_eq!(new_game.get_current_player(), "pl2");
    let result = matches!(
        new_game.make_move(PlayerMove::QuoridorWallH { row: 1, col: 2 }, "pl2"),
        PlayerMoveResult::Accepted
    );
    assert!(result);
    assert_eq!(new_game.get_current_player(), "pl1");
    let result = matches!(
        new_game.make_move(PlayerMove::QuoridorWallH { row: 1, col: 4 }, "pl1"),
        PlayerMoveResult::Accepted
    );
    assert!(result);
    assert_eq!(new_game.get_current_player(), "pl2");
    let result = matches!(
        new_game.make_move(PlayerMove::QuoridorWallH { row: 1, col: 6 }, "pl2"),
        PlayerMoveResult::Accepted
    );
    assert!(result);
    assert_eq!(new_game.get_current_player(), "pl1");
    let result = matches!(
        new_game.make_move(PlayerMove::QuoridorWallV { row: 2, col: 6 }, "pl1"),
        PlayerMoveResult::Accepted
    );
    assert!(result);
    assert_eq!(new_game.get_current_player(), "pl2");
    let result = matches!(
        new_game.make_move(PlayerMove::QuoridorWallH { row: 3, col: 7 }, "pl2"),
        PlayerMoveResult::Accepted
    );
    assert!(!result);
    assert_eq!(new_game.get_current_player(), "pl2");
}

#[test]
fn test_cpu() {
    let mut new_game = QuoridorMatch::new(&vec!["pl1".to_owned()]);
    new_game.make_move(PlayerMove::QuoridorMove { row: 1, col: 4 }, "pl1");
    let cpu_move = CpuPlayer::get_cpu_move(new_game.get_game(), false);
    if let PlayerMove::QuoridorWallH { row, col } = cpu_move {
        assert_eq!((row, col), (2, 3))
    }
    assert_eq!(new_game.get_current_player(), &"pl1".to_owned());
}

#[test]
fn a_new_match_starts_with_the_first_player() {
    let game = two_players();
    assert_eq!(game.get_up_player(), "A");
    assert_eq!(game.get_down_player(), "B");
    assert_eq!(game.get_current_player(), "A");
    assert_eq!(game.get_winner(), None);
    assert_eq!(game.get_turn(), 0);
    assert_eq!(game.get_timestamp(), 1_000);
    assert!(!game.is_jump_phase());
    assert!(game.contains_player("A"));
    assert!(game.contains_player("B"));
    assert!(!game.contains_player("C"));
    assert_eq!(game.get_game().up_player, (0, 4));
    assert_eq!(game.get_game().down_player, (8, 4));
    assert_eq!(game.get_game().up_player_free_walls, 9);
    assert_eq!(game.get_game().down_player_free_walls, 9);
    let solo = QuoridorMatch::new_at(&vec!["A".to_owned()], 0);
    assert_eq!(solo.get_down_player(), CPU);
    assert_eq!(CPU, "|QCPU|");
}

#[test]
fn basic_win() {
    let mut game = two_players();
    let mut b_col = 4;
    for row in 1..=7 {
        assert_eq!(game.play(PlayerMove::QuoridorMove { row, col: 4 }, "A", 2_000), PlayerMoveResult::Accepted);
        assert_eq!(game.get_winner(), None);
        assert_eq!(game.get_current_player(), "B");
        b_col = if b_col == 5 { 6 } else { 5 };
        assert_eq!(game.play(PlayerMove::QuoridorMove { row: 8, col: b_col }, "B", 2_000), PlayerMoveResult::Accepted);
        assert_eq!(game.get_current_player(), "A");
    }
    assert_eq!(game.get_game().up_player, (7, 4));
    assert_ne!(game.get_game().down_player, (8, 4));
    assert_eq!(game.play(PlayerMove::QuoridorMove { row: 8, col: 4 }, "A", 3_000), PlayerMoveResult::Accepted);
    assert_eq!(game.get_winner(), Some("A".to_owned()));
    assert_eq!(game.get_game().up_player, (8, 4));
    assert_eq!(
        game.make_move(PlayerMove::QuoridorMove { row: 8, col: 3 }, "A"),
        PlayerMoveResult::GameFinished
    );
    assert_eq!(
        game.make_move(PlayerMove::QuoridorMove { row: 8, col: 4 }, "B"),
        PlayerMoveResult::GameFinished
    );
    assert_eq!(game.make_move(PlayerMove::Concede, "B"), PlayerMoveResult::GameFinished);
    assert_eq!(game.get_winner(), Some("A".to_owned()));
}

#[test]
fn blocked_wall_rejected() {
    let mut game = QuoridorMatch::new_at(&vec!["A".to_owned(), "B".to_owned()], 0);
    let players = ["A", "B", "A", "B"];
    let cols = [0, 2, 4, 6];
    for i in 0..4 {
        assert_eq!(
            game.play(PlayerMove::QuoridorWallH { row: 1, col: cols[i] }, players[i], 5),
            PlayerMoveResult::Accepted
        );
    }
    assert_eq!(game.get_game().up_player_free_walls, 7);
    assert_eq!(game.get_game().down_player_free_walls, 7);
    assert_eq!(game.play(PlayerMove::QuoridorWallH { row: 1, col: 7 }, "A", 6), PlayerMoveResult::Disallowed);
    assert_eq!(game.get_game().up_player_free_walls, 7);
    assert_eq!(game.get_game().down_player_free_walls, 7);
    assert_eq!(game.get_game().horizontal_walls, vec![(1, 0), (1, 2), (1, 4), (1, 6)]);
    assert_eq!(game.get_current_player(), "A");
}

#[test]
fn sealing_wall_rejected() {
    let mut game = two_players();
    let moves = [
        (PlayerMove::QuoridorWallH { row: 1, col: 0 }, "A"),
        (PlayerMove::QuoridorWallH { row: 1, col: 2 }, "B"),
        (PlayerMove::QuoridorWallH { row: 1, col: 4 }, "A"),
        (PlayerMove::QuoridorWallH { row: 1, col: 6 }, "B"),
        (PlayerMove::QuoridorWallV { row: 0, col: 7 }, "A"),
    ];
    for (index, (player_move, player)) in moves.iter().enumerate() {
        let expected = if index == 4 { PlayerMoveResult::Disallowed } else { PlayerMoveResult::Accepted };
        assert_eq!(game.play(*player_move, player, 7), expected);
    }
    assert_eq!(game.get_game().up_player_free_walls, 7);
    assert!(game.get_game().vertical_walls.is_empty());
    assert!(game.get_game().player_can_win((0, 4), 8));
}

#[test]
fn concede() {
    let mut game = two_players();
    assert_eq!(game.make_move(PlayerMove::Concede, "A"), PlayerMoveResult::GameFinished);
    assert_eq!(game.get_winner(), Some("B".to_owned()));
    assert_eq!(game.get_game().up_player, (0, 4));
    let mut game = two_players();
    assert_eq!(game.make_move(PlayerMove::Concede, "B"), PlayerMoveResult::GameFinished);
    assert_eq!(game.get_winner(), Some("A".to_owned()));
    let mut game = two_players();
    assert_eq!(game.make_move(PlayerMove::Concede, "C"), PlayerMoveResult::NotFound);
    assert_eq!(game.get_winner(), None);
}

#[test]
fn out_of_turn_moves_are_turned_down() {
    let mut game = two_players();
    assert_eq!(game.play(PlayerMove::QuoridorMove { row: 7, col: 4 }, "B", 1), PlayerMoveResult::WrongTurn);
    assert_eq!(game.play(PlayerMove::QuoridorWallH { row: 3, col: 3 }, "B", 1), PlayerMoveResult::WrongTurn);
    assert_eq!(game.play(PlayerMove::QuoridorWallV { row: 3, col: 3 }, "C", 1), PlayerMoveResult::WrongTurn);
    assert_eq!(game.get_current_player(), "A");
    assert_eq!(game.get_turn(), 0);
    assert_eq!(game.get_timestamp(), 1_000);
}

#[test]
fn rejection_is_idempotent() {
    let mut game = two_players();
    let first = game.play(PlayerMove::QuoridorMove { row: 3, col: 4 }, "A", 10);
    let board = game.get_game().clone();
    let second = game.play(PlayerMove::QuoridorMove { row: 3, col: 4 }, "A", 20);
    assert_eq!(first, PlayerMoveResult::Disallowed);
    assert_eq!(second, PlayerMoveResult::Disallowed);
    assert_eq!(game.get_game().up_player, board.up_player);
    assert_eq!(game.get_game().down_player, board.down_player);
    assert_eq!(game.get_game().horizontal_walls, board.horizontal_walls);
    assert_eq!(game.get_game().vertical_walls, board.vertical_walls);
    assert_eq!(game.get_game().up_player_free_walls, board.up_player_free_walls);
    assert_eq!(game.get_game().down_player_free_walls, board.down_player_free_walls);
    assert_eq!(game.get_timestamp(), 1_000);
    assert_eq!(game.get_turn(), 0);
    assert_eq!(game.get_current_player(), "A");
}

#[test]
fn wall_counts_go_down_by_one() {
    let mut game = two_players();
    assert_eq!(game.play(PlayerMove::QuoridorWallV { row: 4, col: 4 }, "A", 1), PlayerMoveResult::Accepted);
    assert_eq!(game.get_game().up_player_free_walls, 8);
    assert_eq!(game.get_game().down_player_free_walls, 9);
    assert_eq!(game.play(PlayerMove::QuoridorWallV { row: 4, col: 4 }, "B", 1), PlayerMoveResult::Disallowed);
    assert_eq!(game.get_game().down_player_free_walls, 9);
    assert_eq!(game.play(PlayerMove::QuoridorWallH { row: 4, col: 5 }, "B", 1), PlayerMoveResult::Accepted);
    assert_eq!(game.get_game().up_player_free_walls, 8);
    assert_eq!(game.get_game().down_player_free_walls, 8);
    assert_eq!(game.get_turn(), 2);
}

#[test]
fn a_player_without_walls_cannot_place_one() {
    let mut game = two_players();
    let walls = [(0, 0), (0, 2), (0, 4), (0, 6), (2, 0), (2, 2), (2, 4), (2, 6), (4, 0)];
    for (index, wall) in walls.iter().enumerate() {
        assert_eq!(
            game.play(PlayerMove::QuoridorWallV { row: wall.0, col: wall.1 }, "A", 1),
            PlayerMoveResult::Accepted
        );
        let col = if index % 2 == 0 { 5 } else { 4 };
        assert_eq!(game.play(PlayerMove::QuoridorMove { row: 8, col }, "B", 1), PlayerMoveResult::Accepted);
    }
    assert_eq!(game.get_game().up_player_free_walls, 0);
    assert_eq!(game.play(PlayerMove::QuoridorWallV { row: 6, col: 6 }, "A", 1), PlayerMoveResult::Disallowed);
    assert_eq!(game.get_game().vertical_walls.len(), 9);
    assert_eq!(game.get_current_player(), "A");
}

#[test]
fn stepping_onto_the_opponent_keeps_the_turn_for_one_move() {
    let mut game = two_players();
    for row in 1..=4 {
        assert_eq!(game.play(PlayerMove::QuoridorMove { row, col: 4 }, "A", 1), PlayerMoveResult::Accepted);
        if row < 4 {
            assert_eq!(
                game.play(PlayerMove::QuoridorMove { row: 8 - row, col: 4 }, "B", 1),
                PlayerMoveResult::Accepted
            );
        }
    }
    assert_eq!(game.get_game().up_player, (4, 4));
    assert_eq!(game.get_game().down_player, (5, 4));
    assert_eq!(game.get_current_player(), "B");
    assert_eq!(game.play(PlayerMove::QuoridorMove { row: 4, col: 4 }, "B", 1), PlayerMoveResult::Accepted);
    assert!(game.is_jump_phase());
    assert_eq!(game.get_current_player(), "B");
    assert_eq!(game.play(PlayerMove::QuoridorMove { row: 5, col: 4 }, "A", 1), PlayerMoveResult::WrongTurn);
    assert_eq!(game.play(PlayerMove::QuoridorWallH { row: 0, col: 0 }, "B", 1), PlayerMoveResult::Disallowed);
    assert_eq!(game.play(PlayerMove::QuoridorMove { row: 3, col: 4 }, "B", 1), PlayerMoveResult::Accepted);
    assert!(!game.is_jump_phase());
    assert_eq!(game.get_current_player(), "A");
    assert_eq!(game.get_game().down_player, (3, 4));
}

#[test]
fn the_down_player_wins_in_row_zero() {
    let mut game = two_players();
    let mut a_col = 4;
    for row in (1..=7).rev() {
        a_col = if a_col == 4 { 3 } else { 4 };
        assert_eq!(game.play(PlayerMove::QuoridorMove { row: 0, col: a_col }, "A", 1), PlayerMoveResult::Accepted);
        assert_eq!(game.play(PlayerMove::QuoridorMove { row, col: 4 }, "B", 1), PlayerMoveResult::Accepted);
    }
    assert_eq!(game.play(PlayerMove::QuoridorMove { row: 0, col: 2 }, "A", 1), PlayerMoveResult::Accepted);
    assert_eq!(game.play(PlayerMove::QuoridorMove { row: 0, col: 4 }, "B", 9), PlayerMoveResult::Accepted);
    assert_eq!(game.get_winner(), Some("B".to_owned()));
    assert_eq!(game.get_current_player(), "B");
    assert_eq!(game.get_timestamp(), 9);
}

#[test]
fn the_clock_is_noted_on_accepted_moves_only() {
    let mut game = two_players();
    assert_eq!(game.play(PlayerMove::QuoridorMove { row: 5, col: 5 }, "A", 2_000), PlayerMoveResult::Disallowed);
    assert_eq!(game.get_timestamp(), 1_000);
    assert_eq!(game.play(PlayerMove::QuoridorMove { row: 1, col: 4 }, "A", 2_000), PlayerMoveResult::Accepted);
    assert_eq!(game.get_timestamp(), 2_000);
    game.refresh_timestamp();
    assert!(game.get_timestamp() > 2_000);
}

#[test]
fn a_silent_player_gives_up() {
    let mut game = two_players();
    game.timeout_guard_at(1_180);
    assert_eq!(game.get_winner(), None);
    assert!(!game.is_expired_at(1_210));
    assert!(game.is_expired_at(1_211));
    game.timeout_guard_at(1_181);
    assert_eq!(game.get_winner(), Some("B".to_owned()));
    let mut game = two_players();
    assert_eq!(game.play(PlayerMove::QuoridorMove { row: 1, col: 4 }, "A", 1_100), PlayerMoveResult::Accepted);
    game.timeout_guard_at(1_281);
    assert_eq!(game.get_winner(), Some("A".to_owned()));
    let mut game = two_players();
    game.timeout_guard();
    assert_eq!(game.get_winner(), Some("B".to_owned()));
    let mut fresh = QuoridorMatch::new(&vec!["A".to_owned(), "B".to_owned()]);
    fresh.timeout_guard();
    assert_eq!(fresh.get_winner(), None);
}

#[test]
fn the_computer_answers_at_once() {
    let mut game = QuoridorMatch::new_at(&vec!["A".to_owned()], 0);
    assert_eq!(game.make_move_at(PlayerMove::QuoridorMove { row: 1, col: 4 }, "A", 50), PlayerMoveResult::Accepted);
    assert_eq!(game.get_current_player(), "A");
    assert_eq!(game.get_turn(), 2);
    let board = game.get_game();
    let moved = board.down_player == (7, 4);
    let walled = board.horizontal_walls.len() + board.vertical_walls.len() == 1;
    assert!(moved != walled);
    if walled {
        assert_eq!(board.down_player_free_walls, 8);
    }
    assert!(board.player_can_win(board.up_player, 8));
    assert!(board.player_can_win(board.down_player, 0));
}

#[test]
fn the_computer_moves_with_either_coin() {
    let game = QuoridorMatch::new_at(&vec!["A".to_owned()], 0);
    let ahead = CpuPlayer::get_cpu_move_with(game.get_game(), false, 0);
    assert_eq!(ahead, PlayerMove::QuoridorMove { row: 7, col: 4 });
    let even = CpuPlayer::get_cpu_move_with(game.get_game(), false, 1);
    assert_eq!(even, PlayerMove::QuoridorMove { row: 7, col: 4 });
    let only_moves = CpuPlayer::get_cpu_move_with(game.get_game(), true, 0);
    assert_eq!(only_moves, PlayerMove::QuoridorMove { row: 7, col: 4 });
}

#[test]
fn the_computer_walls_when_it_is_behind() {
    let mut game = QuoridorMatch::new_at(&vec!["A".to_owned(), "B".to_owned()], 0);
    assert_eq!(game.play(PlayerMove::QuoridorMove { row: 1, col: 4 }, "A", 1), PlayerMoveResult::Accepted);
    assert_eq!(game.play(PlayerMove::QuoridorMove { row: 8, col: 5 }, "B", 1), PlayerMoveResult::Accepted);
    assert_eq!(game.play(PlayerMove::QuoridorMove { row: 2, col: 4 }, "A", 1), PlayerMoveResult::Accepted);
    let chosen = CpuPlayer::get_cpu_move_with(game.get_game(), false, 0);
    assert_eq!(chosen, PlayerMove::QuoridorWallH { row: 2, col: 4 });
    let mut trial = game.get_game().clone();
    assert!(trial.new_h_wall((2, 4)));
    let forced = CpuPlayer::get_cpu_move_with(game.get_game(), true, 0);
    assert_eq!(forced, PlayerMove::QuoridorMove { row: 7, col: 5 });
}

#[test]
fn a_copy_of_a_match_is_the_same_match() {
    let mut game = two_players();
    assert_eq!(game.play(PlayerMove::QuoridorWallH { row: 1, col: 0 }, "A", 77), PlayerMoveResult::Accepted);
    let copy = game.clone();
    assert_eq!(copy.get_up_player(), "A");
    assert_eq!(copy.get_down_player(), "B");
    assert_eq!(copy.get_current_player(), "B");
    assert_eq!(copy.get_timestamp(), 77);
    assert_eq!(copy.get_turn(), 1);
    assert_eq!(copy.get_game().horizontal_walls, vec![(1, 0)]);
    assert_eq!(copy.get_winner(), None);
}

#[test]
fn only_accepted_is_ok() {
    assert!(PlayerMoveResult::Accepted.is_ok());
    assert!(!PlayerMoveResult::WrongTurn.is_ok());
    assert!(!PlayerMoveResult::Disallowed.is_ok());
    assert!(!PlayerMoveResult::GameFinished.is_ok());
    assert!(!PlayerMoveResult::NotFound.is_ok());
}

#[test]
fn a_whole_match_against_the_computer_ends_with_a_winner() {
    for round in 0..20 {
        let mut game = QuoridorMatch::new_at(&vec!["A".to_owned()], round);
        let mut moves = 0;
        while game.get_winner().is_none() {
            assert!(moves < 400);
            assert_eq!(game.get_current_player(), "A");
            let board = game.get_game();
            let path = board.get_shortest_path(board.up_player, 8).unwrap();
            assert!(board.player_can_win(board.down_player, 0));
            let step = path[1];
            let walls_before = board.horizontal_walls.len() + board.vertical_walls.len();
            let free_before = board.up_player_free_walls + board.down_player_free_walls;
            let result = game.make_move_at(PlayerMove::QuoridorMove { row: step.0, col: step.1 }, "A", round + 1);
            assert_eq!(result, PlayerMoveResult::Accepted);
            let board = game.get_game();
            let walls_after = board.horizontal_walls.len() + board.vertical_walls.len();
            let free_after = board.up_player_free_walls + board.down_player_free_walls;
            assert_eq!(walls_after - walls_before, free_before - free_after);
            assert!(walls_after - walls_before <= 1);
            assert_eq!(game.is_jump_phase(), board.up_player == board.down_player);
            moves += 1;
        }
        let winner = game.get_winner().unwrap();
        let board = game.get_game();
        if winner == "A" {
            assert_eq!(board.up_player.0, 8);
        } else {
            assert_eq!(winner, CPU);
            assert_eq!(board.down_player.0, 0);
        }
        assert_eq!(
            game.make_move_at(PlayerMove::QuoridorMove { row: 1, col: 1 }, "A", 0),
            PlayerMoveResult::GameFinished
        );
    }
}
