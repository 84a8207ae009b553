use atlas_chess::board::Board;
use atlas_chess::game::{DrawReason, GameStatus, Position};
use atlas_chess::search::SearchLimit;
use atlas_chess::types::{Color, Move, EMPTY, NO_SQUARE, WHITE_PAWN};
use atlas_chess::web::{
    legal_destinations, search_limit_of, status_dto, ApiError, ColorDTO, CreateGameRequest,
    DrawReasonDTO, Game, GameStatusDTO, MoveRecord, MoveRequest,
};

fn starting_board() -> Board {
    let mut board = Board {
        squares: [0; 64],
        piece_bitboards: [0; 12],
        white_pieces: 0,
        black_pieces: 0,
        all_pieces: 0,
        side_to_move: Color::White,
        castling_rights: 15,
        en_passant_square: NO_SQUARE,
        halfmove_clock: 0,
        zobrian_hash: 0,
    };
    board.initialize_board();
    board.update_bitboards();
    board
}

#[test]
fn colours_convert_both_ways() {
    assert_eq!(Color::from(ColorDTO::White), Color::White);
    assert_eq!(Color::from(ColorDTO::Black), Color::Black);
    assert_eq!(ColorDTO::from(Color::White), ColorDTO::White);
    assert_eq!(ColorDTO::from(Color::Black), ColorDTO::Black);
}

#[test]
fn statuses_are_reported_with_their_reason() {
    assert_eq!(status_dto(GameStatus::InProgress), (GameStatusDTO::InProgress, None));
    assert_eq!(status_dto(GameStatus::BlackWon), (GameStatusDTO::BlackWon, None));
    assert_eq!(
        status_dto(GameStatus::Drawn(DrawReason::ThreefoldRepetition)),
        (GameStatusDTO::Drawn, Some(DrawReasonDTO::ThreefoldRepetition))
    );
}

#[test]
fn a_game_needs_a_positive_depth() {
    let ok = CreateGameRequest { user_color: ColorDTO::White, depth: 3 };
    assert_eq!(search_limit_of(&ok), Ok(SearchLimit::Depth(3)));
    let zero = CreateGameRequest { user_color: ColorDTO::Black, depth: 0 };
    assert_eq!(
        search_limit_of(&zero),
        Err(ApiError::BadRequest("depth must be a positive integer".to_string()))
    );
}

#[test]
fn a_move_request_reads_as_move_text() {
    let request = MoveRequest { origin: "e7".to_string(), destination: "e8".to_string(), promotion: Some('q') };
    assert_eq!(request.move_text(), "e7e8q");
    let request = MoveRequest { origin: "e2".to_string(), destination: "e4".to_string(), promotion: None };
    assert_eq!(request.move_text(), "e2e4");
}

#[test]
fn legal_destinations_of_a_square() {
    let board = starting_board();
    assert_eq!(legal_destinations(&board, 12), vec![20, 28]);
    assert_eq!(legal_destinations(&board, 6), vec![21, 23]);
    assert!(legal_destinations(&board, 4).is_empty());
    assert!(legal_destinations(&board, 28).is_empty());
}

#[test]
fn undo_takes_back_a_full_turn() {
    let mut position = Position::new(starting_board());
    position.position_history.push(position.board.zobrian_hash);
    position.apply_move_str("e2e4").unwrap();
    position.record_real_move();
    position.apply_move_str("e7e5").unwrap();
    position.record_real_move();
    let mut game = Game {
        position,
        user_color: Color::White,
        search_limit: SearchLimit::Depth(1),
        move_history: vec![coloured_record(1, Color::White), coloured_record(2, Color::Black)],
        last_active: std::time::Instant::now(),
    };

    assert_eq!(game.undo_user_turn(), Ok(()));
    assert_eq!(game.position.board.squares[12], WHITE_PAWN);
    assert_eq!(game.position.board.squares[28], EMPTY);
    assert_eq!(game.position.board.side_to_move, Color::White);
    assert_eq!(game.position.history.len(), 0);
    assert_eq!(game.position.position_history.len(), 1);
    assert_eq!(game.position.moves_counter, 0);
    assert!(game.move_history.is_empty());

    assert_eq!(game.undo_user_turn(), Err(ApiError::BadRequest("Nothing to undo".to_string())));
    let _ = Move { origin: 0, destination: 0, promotion: None };
}

fn request(origin: &str, destination: &str, promotion: Option<char>) -> MoveRequest {
    MoveRequest { origin: origin.to_string(), destination: destination.to_string(), promotion }
}

#[test]
fn a_new_game_for_white_waits_for_the_player() {
    let game = Game::new(Color::White, SearchLimit::Depth(1), std::time::Instant::now());
    assert_eq!(game.position.board.squares, starting_board().squares);
    assert_eq!(game.position.position_history, vec![0u64]);
    assert!(game.move_history.is_empty());
    assert_eq!(game.position.board.side_to_move, Color::White);
}

#[test]
fn a_new_game_for_black_starts_with_the_engine_move() {
    let game = Game::new(Color::Black, SearchLimit::Depth(1), std::time::Instant::now());
    assert_eq!(game.move_history.len(), 1);
    assert_eq!(game.move_history[0].ply, 1);
    assert_eq!(game.move_history[0].color, Color::White);
    assert_eq!(game.move_history[0].squares, game.position.board.squares.to_vec());
    assert_eq!(game.position.board.side_to_move, Color::Black);
    assert_eq!(game.position.moves_counter, 1);
    assert_eq!(game.position.position_history.len(), 2);
}

#[test]
fn a_player_move_is_recorded_and_answered() {
    let mut game = Game::new(Color::White, SearchLimit::Depth(1), std::time::Instant::now());
    assert_eq!(game.play_user_move(&request("e2", "e4", None)), Ok(()));
    assert_eq!(game.move_history.len(), 2);
    assert_eq!(game.move_history[0].ply, 1);
    assert_eq!(game.move_history[0].color, Color::White);
    assert_eq!(game.move_history[0].notation, "e4");
    assert_eq!(game.move_history[1].ply, 2);
    assert_eq!(game.move_history[1].color, Color::Black);
    assert_eq!(game.position.board.squares[28], WHITE_PAWN);
    assert_eq!(game.position.board.side_to_move, Color::White);
    assert_eq!(game.position.moves_counter, 2);
}

#[test]
fn refused_player_moves_leave_the_game_alone() {
    let mut game = Game::new(Color::White, SearchLimit::Depth(1), std::time::Instant::now());
    assert_eq!(
        game.play_user_move(&request("z9", "e4", None)),
        Err(ApiError::BadRequest("Invalid origin square".to_string()))
    );
    assert_eq!(
        game.play_user_move(&request("e2", "e9", None)),
        Err(ApiError::BadRequest("Invalid destination square".to_string()))
    );
    assert_eq!(
        game.play_user_move(&request("e2", "e5", None)),
        Err(ApiError::BadRequest("Illegal move".to_string()))
    );
    assert!(game.move_history.is_empty());
    assert_eq!(game.position.board.squares, starting_board().squares);
    // a game whose player has black, at the starting position with white to move
    let mut waiting = Game::new(Color::White, SearchLimit::Depth(1), std::time::Instant::now());
    waiting.user_color = Color::Black;
    assert_eq!(
        waiting.play_user_move(&request("e7", "e5", None)),
        Err(ApiError::BadRequest("It's not your turn".to_string()))
    );
    assert!(waiting.move_history.is_empty());
}

fn coloured_record(ply: u32, color: Color) -> MoveRecord {
    MoveRecord { ply, color, notation: String::new(), squares: Vec::new() }
}

#[test]
fn undo_after_a_game_ending_move_takes_back_only_that_move() {
    // the player (white) moved last: no engine reply followed
    let mut position = Position::new(starting_board());
    position.position_history.push(position.board.zobrian_hash);
    for text in ["e2e4", "e7e5", "d2d4"] {
        position.apply_move_str(text).unwrap();
        position.record_real_move();
    }
    let mut game = Game {
        position,
        user_color: Color::White,
        search_limit: SearchLimit::Depth(1),
        move_history: vec![
            coloured_record(1, Color::White),
            coloured_record(2, Color::Black),
            coloured_record(3, Color::White),
        ],
        last_active: std::time::Instant::now(),
    };
    assert_eq!(game.undo_user_turn(), Ok(()));
    assert_eq!(game.position.board.side_to_move, Color::White);
    assert_eq!(game.position.board.squares[11], WHITE_PAWN);
    assert_eq!(game.position.board.squares[28], WHITE_PAWN);
    assert_eq!(game.position.history.len(), 2);
    assert_eq!(game.position.position_history.len(), 3);
    assert_eq!(game.position.moves_counter, 2);
    assert_eq!(game.move_history.len(), 2);
}

#[test]
fn the_store_evicts_the_first_longest_idle_game_once_full() {
    assert!(!atlas_chess::web::store_is_full(499));
    assert!(atlas_chess::web::store_is_full(500));
    assert_eq!(atlas_chess::web::longest_idle(&vec![]), None);
    assert_eq!(atlas_chess::web::longest_idle(&vec![5, 9, 2, 9]), Some(1));
    assert_eq!(atlas_chess::web::longest_idle(&vec![7]), Some(0));
}

fn white_game() -> Game {
    Game::new(Color::White, SearchLimit::Depth(1), std::time::Instant::now())
}

#[test]
fn a_full_store_evicts_the_longest_idle_game_and_stays_at_its_bound() {
    let mut store = atlas_chess::web::GameStore::new();
    assert_eq!(store.find(3), None);
    for id in 0..500u128 {
        let idle = vec![1u128; store.ids.len()];
        store.insert(id, white_game(), &idle);
    }
    assert_eq!(store.ids.len(), atlas_chess::web::MAX_GAMES);
    let mut idle = vec![1u128; 500];
    idle[7] = 9;
    idle[9] = 9;
    store.insert(1000, white_game(), &idle);
    assert_eq!(store.ids.len(), 500);
    assert_eq!(store.find(7), None);
    assert_eq!(store.find(9), Some(8));
    let at = store.find(1000).unwrap();
    assert_eq!(store.ids[at], 1000);
    assert_eq!(store.find(0), Some(0));
}

#[test]
fn storing_under_a_known_id_replaces_its_game() {
    let mut store = atlas_chess::web::GameStore::new();
    store.insert(5, white_game(), &vec![]);
    store.insert(6, white_game(), &vec![0]);
    let black = Game::new(Color::Black, SearchLimit::Depth(1), std::time::Instant::now());
    store.insert(5, black, &vec![0, 0]);
    assert_eq!(store.ids.len(), 2);
    let at = store.find(5).unwrap();
    assert_eq!(at, 0);
    assert_eq!(store.games[at].user_color, Color::Black);
    assert_eq!(store.games[1].user_color, Color::White);
}

#[test]
fn a_store_with_a_repeated_id_is_not_well_formed() {
    let mut store = atlas_chess::web::GameStore::new();
    assert!(store.is_well_formed());
    store.insert(1, white_game(), &vec![]);
    store.insert(2, white_game(), &vec![0]);
    assert!(store.is_well_formed());
    store.ids[1] = 1;
    assert!(!store.is_well_formed());
    store.ids.pop();
    assert!(!store.is_well_formed());
}
