use quoridor::a_star::{AStar, Node, PathGenerator};
use quoridor::clock::is_elapsed_over;
use quoridor::game::Quoridor;
use quoridor::game_abstractions::{ActiveMatchs, Match, MatchType};
use quoridor::game_lobbies::{copy_names, has_name, Lobby, LobbyBase, MatchLobbies};
use quoridor::game_matches::{generate_rand_string, ActiveGames, GenericGame, ID_LEN};
use quoridor::messages::{same_text, PlayerMove, PlayerMoveResult};

fn names(list: &[&str]) -> Vec<String> {
    list.iter().map(|name| name.to_string()).collect()
}

#[test]
fn match_types_know_their_players() {
    assert_eq!(MatchType::Quoridor.get_expected_players(), 2);
    assert_eq!(MatchType::Unknown.get_expected_players(), 0);
}

#[test]
fn a_match_is_made_for_a_known_game_only() {
    let found = Match::new(&names(&["A", "B"]), MatchType::Quoridor, 5).unwrap();
    assert!(found.contains_player("A"));
    assert!(found.contains_player("B"));
    assert!(!found.contains_player("C"));
    assert_eq!(found.get_winner(), None);
    assert_eq!(found.expose().get_timestamp(), 5);
    assert_eq!(found.expose().get_current_player(), "A");
    assert!(Match::new(&names(&["A", "B"]), MatchType::Unknown, 5).is_none());
    let mut found = found;
    assert_eq!(
        found.unwrap().play(PlayerMove::QuoridorMove { row: 1, col: 4 }, "A", 6),
        PlayerMoveResult::Accepted
    );
    let copy = found.clone();
    assert_eq!(copy.expose().get_game().up_player, (1, 4));
    assert_eq!(copy.expose().get_timestamp(), 6);
}

#[test]
fn the_store_keeps_matches_under_their_identifiers() {
    let mut store = ActiveMatchs::new();
    assert_eq!(store.len(), 0);
    assert!(store.append(&names(&["A", "B"]), "one", MatchType::Quoridor, 10));
    assert!(!store.append(&names(&["C", "D"]), "one", MatchType::Quoridor, 10));
    assert!(!store.append(&names(&["C", "D"]), "two", MatchType::Unknown, 10));
    assert!(!store.append(&names(&[]), "two", MatchType::Quoridor, 10));
    assert!(store.append(&names(&["C", "D"]), "two", MatchType::Quoridor, 11));
    assert_eq!(store.len(), 2);
    assert_eq!(store.find_owner("one"), Some(0));
    assert_eq!(store.find_owner("two"), Some(1));
    assert_eq!(store.find_owner("three"), None);
    assert_eq!(store.find_player("D"), Some(1));
    assert_eq!(store.find_player("E"), None);
    assert_eq!(store.get_id_by_player("C"), Some("two".to_owned()));
    assert_eq!(store.get_id_by_player("E"), None);
    let found = store.get_match("two").unwrap();
    assert_eq!(found.expose().get_up_player(), "C");
    assert_eq!(found.expose().get_timestamp(), 11);
    assert!(store.get_match("three").is_none());
}

#[test]
fn the_store_plays_moves_on_the_named_match() {
    let mut store = ActiveMatchs::new();
    assert!(store.append(&names(&["A", "B"]), "one", MatchType::Quoridor, 10));
    assert!(store.append(&names(&["C", "D"]), "two", MatchType::Quoridor, 10));
    assert_eq!(
        store.make_move("two", PlayerMove::QuoridorMove { row: 1, col: 4 }, "C", 20),
        Some(PlayerMoveResult::Accepted)
    );
    assert_eq!(
        store.make_move("two", PlayerMove::QuoridorMove { row: 2, col: 4 }, "C", 21),
        Some(PlayerMoveResult::WrongTurn)
    );
    assert_eq!(store.make_move("none", PlayerMove::Concede, "C", 21), None);
    assert_eq!(store.get_match("two").unwrap().expose().get_game().up_player, (1, 4));
    assert_eq!(store.get_match("two").unwrap().expose().get_timestamp(), 20);
    assert_eq!(store.get_match("one").unwrap().expose().get_game().up_player, (0, 4));
    assert_eq!(store.get_match("one").unwrap().expose().get_timestamp(), 10);
    assert_eq!(store.find_owner("one"), Some(0));
    assert_eq!(store.find_owner("two"), Some(1));
}

#[test]
fn the_store_drops_the_named_match() {
    let mut store = ActiveMatchs::new();
    assert!(store.append(&names(&["A", "B"]), "one", MatchType::Quoridor, 10));
    assert!(store.append(&names(&["C", "D"]), "two", MatchType::Quoridor, 10));
    assert!(store.append(&names(&["E", "F"]), "three", MatchType::Quoridor, 10));
    store.drop("two");
    store.drop("nine");
    assert_eq!(store.len(), 2);
    assert_eq!(store.find_owner("one"), Some(0));
    assert_eq!(store.find_owner("three"), Some(1));
    assert_eq!(store.get_match("three").unwrap().expose().get_up_player(), "E");
    assert!(store.get_match("two").is_none());
}

#[test]
fn a_computer_match_enters_the_store() {
    let mut store = ActiveMatchs::new();
    assert_eq!(store.create_cpu_game("A", MatchType::Quoridor, "solo".to_owned(), 3), Some("solo".to_owned()));
    assert_eq!(store.create_cpu_game("B", MatchType::Quoridor, "solo".to_owned(), 3), None);
    assert_eq!(store.create_cpu_game("B", MatchType::Unknown, "other".to_owned(), 3), None);
    assert_eq!(store.len(), 1);
    let found = store.get_match("solo").unwrap();
    assert_eq!(found.expose().get_up_player(), "A");
    assert_eq!(found.expose().get_down_player(), "|QCPU|");
    assert_eq!(
        store.make_move("solo", PlayerMove::QuoridorMove { row: 1, col: 4 }, "A", 4),
        Some(PlayerMoveResult::Accepted)
    );
    let found = store.get_match("solo").unwrap();
    assert_eq!(found.expose().get_current_player(), "A");
    assert_eq!(found.expose().get_turn(), 2);
}

#[test]
fn the_guard_gives_up_for_the_silent_player() {
    let mut store = ActiveMatchs::new();
    assert!(store.append(&names(&["A", "B"]), "one", MatchType::Quoridor, 100));
    store.timeout_guard("one", 280);
    store.timeout_guard("nine", 1_000);
    assert_eq!(store.get_match("one").unwrap().get_winner(), None);
    store.timeout_guard("one", 281);
    assert_eq!(store.get_match("one").unwrap().get_winner(), Some("B".to_owned()));
}

#[test]
fn a_sweep_takes_out_what_is_over_or_silent() {
    let mut store = ActiveMatchs::new();
    assert!(store.append(&names(&["A", "B"]), "old", MatchType::Quoridor, 100));
    assert!(store.append(&names(&["C", "D"]), "over", MatchType::Quoridor, 400));
    assert!(store.append(&names(&["E", "F"]), "live", MatchType::Quoridor, 400));
    assert!(store.append(&names(&["G", "H"]), "edge", MatchType::Quoridor, 220));
    assert_eq!(store.make_move("over", PlayerMove::Concede, "C", 401), Some(PlayerMoveResult::GameFinished));
    let (dropped, ended) = store.sweep_at(400);
    assert_eq!(dropped, names(&["old", "over"]));
    assert_eq!(ended.len(), 2);
    assert_eq!(ended[0].get_winner(), Some("B".to_owned()));
    assert_eq!(ended[1].get_winner(), Some("D".to_owned()));
    assert_eq!(store.len(), 2);
    assert_eq!(store.find_owner("live"), Some(0));
    assert_eq!(store.find_owner("edge"), Some(1));
    assert_eq!(store.get_match("edge").unwrap().get_winner(), None);
    let (dropped, ended) = store.sweep_at(401);
    assert_eq!(dropped, names(&["edge"]));
    assert_eq!(ended[0].get_winner(), Some("H".to_owned()));
    assert_eq!(ended[0].expose().get_up_player(), "G");
    assert_eq!(store.sweep_at(401).0, names(&[]));
    assert_eq!(store.len(), 1);
}

#[test]
fn lobbies_open_and_fill() {
    let mut lobbies = MatchLobbies::new();
    assert_eq!(
        lobbies.new_lobby_at(LobbyBase { owner: "A".to_owned(), game: MatchType::Quoridor }, 100),
        Some("A".to_owned())
    );
    assert_eq!(lobbies.new_lobby_at(LobbyBase { owner: "A".to_owned(), game: MatchType::Quoridor }, 100), None);
    assert_eq!(
        lobbies.new_lobby_at(LobbyBase { owner: "B".to_owned(), game: MatchType::Quoridor }, 150),
        Some("B".to_owned())
    );
    let all = lobbies.get_all_at(160);
    assert_eq!(all.len(), 2);
    assert_eq!(all[0].owner, "A");
    assert_eq!(all[0].get_players(), &names(&["A"]));
    assert_eq!(all[0].get_match_type(), MatchType::Quoridor);
    assert!(!all[0].is_ready());
    assert!(!all[0].is_expired_at(700));
    assert!(all[0].is_expired_at(701));
    assert!(all[0].is_open_at(700));
    assert_eq!(lobbies.find_owner("B"), Some(1));
    assert_eq!(lobbies.find_owner("C"), None);
    assert!(lobbies.add_player_to_lobby_at("A", "A", 160).is_none());
    assert!(lobbies.add_player_to_lobby_at("C", "D", 160).is_none());
    let joined = lobbies.add_player_to_lobby_at("A", "C", 160).unwrap();
    assert_eq!(joined.owner, "A");
    assert_eq!(joined.get_players(), &names(&["A", "C"]));
    assert!(joined.is_ready());
    assert!(!joined.is_open_at(160));
    let all = lobbies.get_all_at(170);
    assert_eq!(all.len(), 1);
    assert_eq!(all[0].owner, "B");
    assert_eq!(lobbies.get_all_at(751).len(), 0);
}

#[test]
fn lobbies_close_by_owner() {
    let mut lobbies = MatchLobbies::new();
    for owner in ["A", "B", "C"] {
        assert!(lobbies.new_lobby_at(LobbyBase { owner: owner.to_owned(), game: MatchType::Quoridor }, 1).is_some());
    }
    lobbies.drop("B");
    lobbies.drop("Z");
    let all = lobbies.get_all_at(2);
    assert_eq!(all.len(), 2);
    assert_eq!(all[0].owner, "A");
    assert_eq!(all[1].owner, "C");
    lobbies.drop_expaired_and_started_at(602);
    assert_eq!(lobbies.get_all_at(602).len(), 0);
}

#[test]
fn the_longest_waiting_lobby_is_taken_first() {
    let mut lobbies = MatchLobbies::new();
    for owner in ["A", "B", "C"] {
        assert!(lobbies.new_lobby_at(LobbyBase { owner: owner.to_owned(), game: MatchType::Quoridor }, 1).is_some());
    }
    let taken = lobbies.take_first_waiting_at("A", 2).unwrap();
    assert_eq!(taken.owner, "B");
    assert_eq!(taken.get_players(), &names(&["B", "A"]));
    assert!(taken.is_ready());
    let taken = lobbies.take_first_waiting_at("D", 2).unwrap();
    assert_eq!(taken.owner, "A");
    assert_eq!(lobbies.get_all_at(2).len(), 1);
    assert!(lobbies.take_first_waiting_at("C", 2).is_none());
    assert_eq!(lobbies.get_all_at(2).len(), 1);
    assert!(lobbies.take_first_waiting_at("D", 700).is_none());
    assert_eq!(lobbies.get_all_at(700).len(), 0);
}

#[test]
fn lobbies_read_the_clock() {
    let mut lobbies = MatchLobbies::new();
    assert_eq!(
        lobbies.new_lobby(LobbyBase { owner: "A".to_owned(), game: MatchType::Quoridor }),
        Some("A".to_owned())
    );
    assert_eq!(lobbies.new_lobby(LobbyBase { owner: "A".to_owned(), game: MatchType::Quoridor }), None);
    assert_eq!(lobbies.get_all().len(), 1);
    let joined = lobbies.add_player_to_lobby("A", "B").unwrap();
    assert!(joined.is_ready());
    assert!(!joined.expaired());
    assert_eq!(lobbies.get_all().len(), 0);
    let lobby = Lobby::new(&LobbyBase { owner: "C".to_owned(), game: MatchType::Unknown });
    assert!(!lobby.is_ready());
    assert!(!lobby.expaired());
    let ancient = Lobby::new_at(&LobbyBase { owner: "C".to_owned(), game: MatchType::Unknown }, 0);
    assert!(ancient.expaired());
    let last = Lobby::new_at(&LobbyBase { owner: "C".to_owned(), game: MatchType::Unknown }, i64::MAX - 5);
    assert!(!last.is_expired_at(i64::MAX));
}

#[test]
fn names_are_copied_and_found() {
    let list = names(&["A", "B"]);
    assert_eq!(copy_names(&list), list);
    assert!(has_name(&list, "B"));
    assert!(!has_name(&list, "C"));
    assert!(same_text("abc", "abc"));
    assert!(!same_text("abc", "abd"));
}

#[test]
fn identifiers_are_letters_and_digits() {
    let id = generate_rand_string(ID_LEN);
    assert_eq!(id.len(), 8);
    assert!(id.chars().all(|c| c.is_ascii_alphanumeric()));
    assert_eq!(generate_rand_string(0), "");
    let long = generate_rand_string(200);
    assert_eq!(long.chars().count(), 200);
    assert!(long.chars().all(|c| c.is_ascii_alphanumeric()));
    assert!(long.chars().any(|c| c != long.chars().next().unwrap()));
}

#[test]
fn the_registry_begins_and_plays_matches() {
    let mut registry = ActiveGames::new();
    let solo = registry.create_cpu_game("A", MatchType::Quoridor).unwrap();
    assert_eq!(solo.len(), 8);
    assert!(registry.create_cpu_game("A", MatchType::Unknown).is_none());
    let lobby = Lobby::new_at(&LobbyBase { owner: "B".to_owned(), game: MatchType::Quoridor }, 0);
    let single = registry.append(&lobby).unwrap();
    assert_ne!(single, solo);
    assert_eq!(
        registry.make_move(&solo, PlayerMove::QuoridorMove { row: 1, col: 4 }, "A"),
        Some(PlayerMoveResult::Accepted)
    );
    assert_eq!(registry.make_move("missing", PlayerMove::Concede, "A"), None);
    let found = registry.get_game_by_owner(&solo).unwrap();
    assert!(found.contains_player("A"));
    assert!(!found.is_expaired());
    assert_eq!(found.get_winner(), None);
    assert!(registry.get_game_by_owner("missing").is_none());
    let by_player = registry.get_game_by_player("B").unwrap();
    assert!(by_player.contains_player("B"));
    assert!(registry.get_game_by_player("Z").is_none());
    assert_eq!(registry.make_move(&single, PlayerMove::Concede, "B"), Some(PlayerMoveResult::GameFinished));
    let (dropped, ended) = registry.sweep();
    assert_eq!(dropped, vec![single.clone()]);
    assert_eq!(ended[0].get_winner(), Some("|QCPU|".to_owned()));
    assert!(registry.get_game_by_owner(&single).is_none());
    registry.drop_by_owner(&solo);
    assert!(registry.get_game_by_owner(&solo).is_none());
    assert_eq!(registry.sweep().0, Vec::<String>::new());
    let pair = registry.create_match(&names(&["X", "Y"])).unwrap();
    assert_eq!(pair.len(), 8);
    assert!(registry.get_game_by_owner(&pair).unwrap().contains_player("Y"));
    assert!(registry.create_match(&names(&[])).is_none());
    assert_eq!(registry.get_id_by_player("Y"), Some(pair.clone()));
    assert_eq!(registry.get_id_by_player("Z"), None);
    let list = registry.get_matches();
    assert_eq!(list.len(), 1);
    assert_eq!((list[0].id.as_str(), list[0].up_player.as_str(), list[0].down_player.as_str()), (pair.as_str(), "X", "Y"));
    assert!(registry.enqueue("W"));
    assert_eq!(registry.get_waiting().len(), 1);
    assert_eq!(registry.get_waiting()[0].owner, "W");
    registry.leave_queue("W");
    assert_eq!(registry.get_waiting().len(), 0);
}

#[test]
fn the_registry_pairs_waiting_players() {
    let mut registry = ActiveGames::new();
    assert!(registry.try_pair("A").is_none());
    assert!(registry.enqueue("A"));
    assert!(!registry.enqueue("A"));
    assert!(registry.enqueue("B"));
    assert!(registry.try_pair("A").is_some());
    let id = registry.try_pair("C").unwrap();
    assert_eq!(id.len(), 8);
    let found = registry.get_game_by_owner(&id).unwrap();
    assert!(found.contains_player("A"));
    assert!(found.contains_player("C"));
    assert!(registry.try_pair("D").is_none());
    let by_player = registry.get_game_by_player("B").unwrap();
    assert!(by_player.contains_player("A"));
    assert_eq!(
        registry.make_move(&id, PlayerMove::QuoridorMove { row: 1, col: 4 }, "A"),
        Some(PlayerMoveResult::Accepted)
    );
    assert_eq!(
        registry.make_move(&id, PlayerMove::QuoridorMove { row: 2, col: 4 }, "A"),
        Some(PlayerMoveResult::WrongTurn)
    );
}

#[test]
fn pairing_at_a_given_time_and_name() {
    let mut registry = ActiveGames::new();
    assert!(registry.enqueue("A"));
    assert_eq!(registry.try_pair_at("B", None, i64::MAX), None);
    assert!(registry.enqueue("A"));
    let now = {
        let probe = quoridor::quoridor_match::QuoridorMatch::new(&names(&["x"]));
        probe.get_timestamp()
    };
    assert_eq!(registry.try_pair_at("A", Some("fixed".to_owned()), now), None);
    assert_eq!(registry.try_pair_at("B", Some("fixed".to_owned()), now), Some("fixed".to_owned()));
    assert!(registry.enqueue("C"));
    assert_eq!(registry.try_pair_at("D", Some("fixed".to_owned()), now), None);
    assert_eq!(registry.try_pair_at("D", Some("other".to_owned()), now), Some("other".to_owned()));
    let found = registry.get_game_by_owner("fixed").unwrap();
    assert!(found.contains_player("A") && found.contains_player("B"));
}

#[test]
fn a_found_game_plays_on_its_own_copy() {
    let mut found = GenericGame::new(&names(&["A", "B"]), MatchType::Quoridor).unwrap();
    assert!(GenericGame::new(&names(&["A", "B"]), MatchType::Unknown).is_none());
    assert_eq!(found.make_move(PlayerMove::QuoridorMove { row: 1, col: 4 }, "A"), PlayerMoveResult::Accepted);
    assert_eq!(found.make_move(PlayerMove::QuoridorMove { row: 2, col: 4 }, "A"), PlayerMoveResult::WrongTurn);
    found.timeout_guard();
    assert_eq!(found.get_winner(), None);
    assert!(!found.is_expaired());
    assert_eq!(found.make_move(PlayerMove::Concede, "B"), PlayerMoveResult::GameFinished);
    assert_eq!(found.get_winner(), Some("A".to_owned()));
}

#[test]
fn time_windows_do_not_overflow() {
    assert!(is_elapsed_over(0, 181, 180));
    assert!(!is_elapsed_over(0, 180, 180));
    assert!(!is_elapsed_over(i64::MAX, i64::MAX, 180));
    assert!(is_elapsed_over(i64::MIN, 0, 180));
    assert!(!is_elapsed_over(i64::MAX - 10, i64::MIN, 180));
}

#[test]
fn a_search_starts_from_a_node_without_a_past() {
    let node = Node::new((1, 2), 9);
    assert_eq!(node.position, (1, 2));
    assert_eq!(node.comes_from, None);
    assert_eq!((node.cost, node.heuristic_cost), (0, 9));
    let _search = AStar::new((Some(8), None));
}

#[test]
fn the_search_runs_on_the_board() {
    let board = Quoridor::new();
    assert_eq!(board.generate_paths((0, 4)), vec![(0, 5), (1, 4), (0, 3)]);
    assert_eq!(board.calculate_cost((0, 4), (1, 4)), 1);
    assert_eq!(board.calculate_heuristic_cost((2, 4), (Some(8), None)), 6);
    assert_eq!(board.calculate_heuristic_cost((7, 4), (Some(0), None)), 7);
    assert_eq!(board.calculate_heuristic_cost((7, 4), (None, None)), 0);
    assert_eq!(board.calculate_heuristic_cost((7, 4), (Some(20), None)), 0);
    assert_eq!(AStar::run(&board, (3, 3), (Some(3), Some(5))), Some(vec![(3, 3), (3, 4), (3, 5)]));
    assert_eq!(AStar::run(&board, (3, 3), (None, Some(1))), Some(vec![(3, 3), (3, 2), (3, 1)]));
    assert_eq!(AStar::run(&board, (3, 3), (None, None)), Some(vec![(3, 3)]));
    assert_eq!(AStar::run(&board, (3, 3), (Some(9), None)), None);
    assert_eq!(AStar::run(&board, (3, 3), (Some(0), Some(9))), None);
    assert_eq!(AStar::run(&board, (30, 30), (Some(8), None)), None);
    assert_eq!(AStar::run(&board, (30, 30), (Some(30), None)), Some(vec![(30, 30)]));
}
