//! What the game service keeps and exchanges: requests, game states, errors, and the games
//! in play, with the decisions its handlers make on them.
use vstd::prelude::*;
use vstd::std_specs::convert::FromSpecImpl;
use crate::board::Board;
use crate::game::{Position, GameStatus, DrawReason, playable_board, status_of, legal_move_of_text};
use crate::legality::legal_list;
use crate::make_move::{action_undoable, squares_before, action_of};
use crate::search::{SearchLimit, best_move_choice, board_after, tt_scores_bounded};
use crate::notation::{
    push_char, describe_move, move_notation, promotion_letter, promotion_letter_of, to_ascii_upper,
    ascii_upper,
};
use crate::play::{
    game_position, is_start_board, starting_board, law_start_is_game_position,
    law_game_position_searchable, law_board_after_game_position,
};
use crate::text::square_of_text;
use crate::types::{Color, Move};

verus! {

/// `std::time::Instant`, the moment a game was last played.
#[verifier::external_type_specification]
#[verifier::external_body]
pub struct ExInstant(std::time::Instant);

#[derive(Copy, Clone, Debug, PartialEq, Eq, Structural)]
pub enum ColorDTO {
    White,
    Black,
}

impl From<ColorDTO> for Color {
    fn from(color: ColorDTO) -> (r: Color) {
        match color {
            ColorDTO::White => Color::White,
            ColorDTO::Black => Color::Black,
        }
    }
}

impl FromSpecImpl<ColorDTO> for Color {
    open spec fn obeys_from_spec() -> bool {
        true
    }

    open spec fn from_spec(v: ColorDTO) -> Color {
        match v {
            ColorDTO::White => Color::White,
            ColorDTO::Black => Color::Black,
        }
    }
}

impl From<Color> for ColorDTO {
    fn from(color: Color) -> (r: ColorDTO) {
        match color {
            Color::White => ColorDTO::White,
            Color::Black => ColorDTO::Black,
        }
    }
}

impl FromSpecImpl<Color> for ColorDTO {
    open spec fn obeys_from_spec() -> bool {
        true
    }

    open spec fn from_spec(v: Color) -> ColorDTO {
        match v {
            Color::White => ColorDTO::White,
            Color::Black => ColorDTO::Black,
        }
    }
}

/// State of a game as the service reports it.
#[derive(Copy, Clone, Debug, PartialEq, Eq, Structural)]
pub enum GameStatusDTO {
    InProgress,
    WhiteWon,
    BlackWon,
    Drawn,
}

/// Why a game was drawn, as the service reports it.
#[derive(Copy, Clone, Debug, PartialEq, Eq, Structural)]
pub enum DrawReasonDTO {
    Stalemate,
    FiftyMoveRule,
    InsufficientMaterial,
    ThreefoldRepetition,
}

/// A request for a new game: the player's colour and the depth the engine searches to.
#[derive(Debug)]
pub struct CreateGameRequest {
    pub user_color: ColorDTO,
    pub depth: u32,
}

/// A move of the player: origin and destination square names and a promotion letter.
#[derive(Debug)]
pub struct MoveRequest {
    pub origin: String,
    pub destination: String,
    pub promotion: Option<char>,
}

#[derive(Debug, PartialEq, Eq)]
pub enum ApiError {
    NotFound,
    BadRequest(String),
}

/// One played half-move: its number, its side, its notation and the board after it.
pub struct MoveRecord {
    pub ply: u32,
    pub color: Color,
    pub notation: String,
    pub squares: Vec<u8>,
}

/// A game in play on the service.
pub struct Game {
    pub position: Position,
    pub user_color: Color,
    pub search_limit: SearchLimit,
    pub move_history: Vec<MoveRecord>,
    pub last_active: std::time::Instant,
}

/// The reported status and draw reason of a game status.
pub open spec fn status_report(status: GameStatus) -> (GameStatusDTO, Option<DrawReasonDTO>) {
    match status {
        GameStatus::InProgress => (GameStatusDTO::InProgress, None),
        GameStatus::WhiteWon => (GameStatusDTO::WhiteWon, None),
        GameStatus::BlackWon => (GameStatusDTO::BlackWon, None),
        GameStatus::Drawn(reason) => (
            GameStatusDTO::Drawn,
            Some(
                match reason {
                    DrawReason::Stalemate => DrawReasonDTO::Stalemate,
                    DrawReason::FiftyMoveRule => DrawReasonDTO::FiftyMoveRule,
                    DrawReason::InsufficientMaterial => DrawReasonDTO::InsufficientMaterial,
                    DrawReason::ThreefoldRepetition => DrawReasonDTO::ThreefoldRepetition,
                },
            ),
        ),
    }
}

/// The reported status and draw reason of a game status.
pub fn status_dto(status: GameStatus) -> (r: (GameStatusDTO, Option<DrawReasonDTO>))
    ensures
        r == status_report(status),
{
    match status {
        GameStatus::InProgress => (GameStatusDTO::InProgress, None),
        GameStatus::WhiteWon => (GameStatusDTO::WhiteWon, None),
        GameStatus::BlackWon => (GameStatusDTO::BlackWon, None),
        GameStatus::Drawn(reason) => (
            GameStatusDTO::Drawn,
            Some(
                match reason {
                    DrawReason::Stalemate => DrawReasonDTO::Stalemate,
                    DrawReason::FiftyMoveRule => DrawReasonDTO::FiftyMoveRule,
                    DrawReason::InsufficientMaterial => DrawReasonDTO::InsufficientMaterial,
                    DrawReason::ThreefoldRepetition => DrawReasonDTO::ThreefoldRepetition,
                },
            ),
        ),
    }
}

/// The search limit a new game asks for; a depth of zero is refused.
pub fn search_limit_of(request: &CreateGameRequest) -> (r: Result<SearchLimit, ApiError>)
    ensures
        request.depth > 0 ==> r == Ok::<SearchLimit, ApiError>(SearchLimit::Depth(request.depth)),
        request.depth == 0 ==> (r matches Err(ApiError::BadRequest(msg)) && msg@
            == "depth must be a positive integer"@),
{
    if request.depth == 0 {
        return Err(ApiError::BadRequest(String::from_str("depth must be a positive integer")));
    }
    Ok(SearchLimit::Depth(request.depth))
}

impl MoveRequest {
    /// The move as text: origin, destination and the promotion letter if any ("e7e8q").
    pub fn move_text(&self) -> (r: String)
        ensures
            r@ == self.origin@ + self.destination@ + match self.promotion {
                Some(c) => seq![c],
                None => Seq::<char>::empty(),
            },
    {
        let mut text = String::from_str(self.origin.as_str());
        text.append(self.destination.as_str());
        match self.promotion {
            Some(c) => push_char(&mut text, c),
            None => {},
        }
        text
    }
}

/// The destinations of the legal moves from `origin`, in the order of the legal move list.
pub open spec fn destinations_from(moves: Seq<Move>, origin: u8) -> Seq<u8> {
    moves.filter(|m: Move| m.origin == origin).map_values(|m: Move| m.destination)
}

/// The squares the piece on `origin` can legally move to (once per move, so a promotion
/// square appears once per promotion piece).
pub fn legal_destinations(board: &Board, origin: u8) -> (r: Vec<u8>)
    requires
        playable_board(*board),
    ensures
        r@ == destinations_from(legal_list(*board), origin),
{
    let moves = board.all_legal_moves();
    let mut out: Vec<u8> = Vec::new();
    let mut i: usize = 0;
    while i < moves.len()
        invariant
            i <= moves@.len(),
            out@ == destinations_from(moves@.take(i as int), origin),
        decreases moves@.len() - i,
    {
        let m = moves[i];
        proof {
            let s = moves@.take(i + 1);
            assert(s.drop_last() =~= moves@.take(i as int));
            reveal(Seq::filter);
            assert(s.filter(|x: Move| x.origin == origin) == if m.origin == origin {
                moves@.take(i as int).filter(|x: Move| x.origin == origin).push(m)
            } else {
                moves@.take(i as int).filter(|x: Move| x.origin == origin)
            });
        }
        if m.origin == origin {
            out.push(m.destination);
        }
        i = i + 1;
        assert(out@ =~= destinations_from(moves@.take(i as int), origin));
    }
    assert(moves@.take(moves@.len() as int) =~= moves@);
    out
}

impl Game {
    /// Takes back the player's last move and the engine's reply to it if there was one (none
    /// when the player's move ended the game), so that it is the player's turn again where they
    /// were; refused when fewer than two moves were played.
    pub fn undo_user_turn(&mut self) -> (r: Result<(), ApiError>)
        requires
            old(self).position.board.wf(),
            forall|i: int|
                0 <= i < old(self).position.history@.len() ==> action_undoable(
                    #[trigger] old(self).position.history@[i],
                ),
            old(self).move_history@.len() >= 2 ==> old(self).position.position_history@.len()
                >= 2,
        ensures
            old(self).move_history@.len() < 2 ==> (r matches Err(ApiError::BadRequest(msg))
                && msg@ == "Nothing to undo"@ && *final(self) == *old(self)),
            old(self).move_history@.len() >= 2 ==> {
                let h = old(self).position.history@;
                let n = old(self).move_history@.len();
                let p = old(self).position.position_history@.len();
                let k = turn_length(*old(self));
                let b = old(self).position.board;
                &&& r is Ok
                &&& final(self).position.board.wf()
                &&& k == 1 && h.len() >= 1 ==> {
                    &&& final(self).position.history@ == h.take(h.len() - 1)
                    &&& final(self).position.board.squares@ == squares_before(
                        b.squares@,
                        h[h.len() - 1],
                    )
                    &&& final(self).position.board.castling_rights == h[h.len()
                        - 1].previous_castling_rights
                    &&& final(self).position.board.en_passant_square == h[h.len()
                        - 1].previous_en_passant_square
                    &&& final(self).position.board.halfmove_clock == h[h.len()
                        - 1].previous_halfmove_clock
                    &&& final(self).position.board.side_to_move == b.side_to_move.spec_opposite()
                }
                &&& k == 2 && h.len() >= 2 ==> {
                    &&& final(self).position.history@ == h.take(h.len() - 2)
                    &&& final(self).position.board.squares@ == squares_before(
                        squares_before(b.squares@, h[h.len() - 1]),
                        h[h.len() - 2],
                    )
                    &&& final(self).position.board.castling_rights == h[h.len()
                        - 2].previous_castling_rights
                    &&& final(self).position.board.en_passant_square == h[h.len()
                        - 2].previous_en_passant_square
                    &&& final(self).position.board.halfmove_clock == h[h.len()
                        - 2].previous_halfmove_clock
                    &&& final(self).position.board.side_to_move == b.side_to_move
                }
                &&& final(self).position.position_history@ == old(
                    self,
                ).position.position_history@.take(p - k)
                &&& final(self).position.moves_counter == if old(self).position.moves_counter
                    >= k {
                    (old(self).position.moves_counter - k) as u32
                } else {
                    0
                }
                &&& final(self).move_history@ == old(self).move_history@.take(n - k)
                &&& final(self).user_color == old(self).user_color
                &&& final(self).search_limit == old(self).search_limit
                &&& final(self).last_active == old(self).last_active
            },
    {
        let n = self.move_history.len();
        if n < 2 {
            return Err(ApiError::BadRequest(String::from_str("Nothing to undo")));
        }
        let k: usize = if self.move_history[n - 1].color == self.user_color {
            1
        } else {
            2
        };
        let ghost h = self.position.history@;
        let ghost b = self.position.board;
        self.position.undo_move();
        proof {
            if h.len() >= 2 {
                assert(self.position.history@ =~= h.take(h.len() - 1));
                assert(self.position.history@.last() == h[h.len() - 2]);
            }
        }
        if k == 2 {
            self.position.undo_move();
            proof {
                if h.len() >= 2 {
                    assert(self.position.history@ =~= h.take(h.len() - 2));
                }
            }
        }
        let position_history_len = self.position.position_history.len();
        self.position.position_history.truncate(position_history_len - k);
        self.position.moves_counter = self.position.moves_counter.saturating_sub(k as u32);
        self.move_history.truncate(n - k);
        Ok(())
    }
}

/// How many half-moves taking back the player's turn removes: one when the last recorded
/// move is the player's own (it ended the game, so no reply followed), else two.
pub open spec fn turn_length(g: Game) -> int {
    if g.move_history@.last().color == g.user_color {
        1
    } else {
        2
    }
}

/// The depth a search limit searches to.
pub open spec fn limit_depth(limit: SearchLimit) -> u32 {
    match limit {
        SearchLimit::Depth(d) => d,
    }
}

/// The text of a move request: origin, destination and the promotion letter if any.
pub open spec fn request_text(request: MoveRequest) -> Seq<char> {
    request.origin@ + request.destination@ + match request.promotion {
        Some(c) => seq![c],
        None => Seq::<char>::empty(),
    }
}

/// `after` is `before` with the half-move `m` played and recorded: the board after the move,
/// the action in the history, the new position among the positions of the game, one more
/// half-move counted, and a record with the next number, the side that moved, the notation
/// (from `origin` to `destination`, with `letter` for a promotion) and the squares after it.
pub open spec fn half_move_recorded(
    before: Game,
    after: Game,
    m: Move,
    origin: u8,
    destination: u8,
    letter: Option<char>,
) -> bool {
    let b0 = before.position.board;
    let b1 = board_after(b0, m);
    let records = after.move_history@;
    &&& after.position.board == b1
    &&& after.position.history@ == before.position.history@.push(action_of(b0, m))
    &&& after.position.position_history@ == before.position.position_history@.push(b1.zobrian_hash)
    &&& after.position.moves_counter == before.position.moves_counter + 1
    &&& after.user_color == before.user_color
    &&& after.search_limit == before.search_limit
    &&& after.last_active == before.last_active
    &&& records.len() == before.move_history@.len() + 1
    &&& records.drop_last() == before.move_history@
    &&& records.last().ply == before.move_history@.len() + 1
    &&& records.last().color == b0.side_to_move
    &&& records.last().notation@ == move_notation(b0.squares@, origin, destination, letter, after.position)
    &&& records.last().squares@ == b1.squares@
}

/// `after` is `before` after the engine's turn: the move chosen by a search with the game's
/// limit, played and recorded, and the table the search leaves; without a move nothing else
/// changes.
pub open spec fn engine_turn(before: Game, after: Game) -> bool {
    let choice = best_move_choice(
        before.position.board,
        before.position.position_history@,
        before.position.transposition_table@,
        before.position.moves_counter,
        before.search_limit,
    );
    &&& after.position.transposition_table@ == choice.1
    &&& match choice.0 {
        Some(m) => half_move_recorded(
            before,
            after,
            m,
            m.origin,
            m.destination,
            promotion_letter_of(m.promotion),
        ),
        None => {
            &&& after.position.board == before.position.board
            &&& after.position.history@ == before.position.history@
            &&& after.position.position_history@ == before.position.position_history@
            &&& after.position.moves_counter == before.position.moves_counter
            &&& after.move_history@ == before.move_history@
            &&& after.user_color == before.user_color
            &&& after.search_limit == before.search_limit
            &&& after.last_active == before.last_active
        },
    }
}

/// The board squares as a vector.
fn squares_vec(squares: &[u8; 64]) -> (v: Vec<u8>)
    ensures
        v@ == squares@,
{
    let mut v: Vec<u8> = Vec::new();
    let mut i: usize = 0;
    while i < 64
        invariant
            i <= 64,
            v@ == squares@.take(i as int),
        decreases 64 - i,
    {
        v.push(squares[i]);
        i = i + 1;
        assert(v@ =~= squares@.take(i as int));
    }
    assert(squares@.take(64) =~= squares@);
    v
}

impl Game {
    /// Plays the engine's move and records it; returns the move, `None` when there is none.
    pub fn play_engine_move(&mut self) -> (played: Option<Move>)
        requires
            game_position(old(self).position.board),
            tt_scores_bounded(old(self).position.transposition_table@),
            limit_depth(old(self).search_limit) < 3_000_000,
            old(self).position.moves_counter < u32::MAX,
            old(self).move_history@.len() < u32::MAX,
            old(self).position.board.side_to_move != old(self).user_color,
        ensures
            played == best_move_choice(
                old(self).position.board,
                old(self).position.position_history@,
                old(self).position.transposition_table@,
                old(self).position.moves_counter,
                old(self).search_limit,
            ).0,
            engine_turn(*old(self), *final(self)),
            game_position(final(self).position.board),
            tt_scores_bounded(final(self).position.transposition_table@),
    {
        let ghost g0 = *self;
        let squares_before = self.position.board.squares;
        let mover = self.position.board.side_to_move;
        let depth = match self.search_limit {
            SearchLimit::Depth(d) => d,
        };
        let played = self.position.user_make_move(self.user_color, depth, None);
        match played {
            Some(m) => {
                proof {
                    law_game_position_searchable(self.position.board);
                }
                self.position.record_real_move();
                let ply = self.move_history.len() as u32 + 1;
                let notation = describe_move(
                    squares_before,
                    m.origin,
                    m.destination,
                    promotion_letter(m.promotion),
                    &self.position,
                );
                let squares = squares_vec(&self.position.board.squares);
                self.move_history.push(MoveRecord { ply, color: mover, notation, squares });
                proof {
                    assert(self.move_history@.drop_last() =~= g0.move_history@);
                }
            },
            None => {},
        }
        played
    }
}

/// A game just set up: the starting board with a hash of zero, its position the only one of
/// the game, no move played or recorded, an empty transposition table.
pub open spec fn fresh_game(g: Game, user_color: Color, search_limit: SearchLimit, last_active: std::time::Instant) -> bool {
    &&& is_start_board(g.position.board)
    &&& g.position.board.halfmove_clock == 0
    &&& g.position.board.zobrian_hash == 0
    &&& g.position.history@.len() == 0
    &&& g.position.position_history@ == seq![0u64]
    &&& g.position.moves_counter == 0
    &&& g.position.transposition_table@.len() == crate::game::TT_SIZE
    &&& forall|i: int|
        0 <= i < g.position.transposition_table@.len() ==> #[trigger] g.position.transposition_table@[i]
            is None
    &&& g.move_history@.len() == 0
    &&& g.user_color == user_color
    &&& g.search_limit == search_limit
    &&& g.last_active == last_active
}

impl Game {
    /// Plays the player's move of `request` and records it, then, when the game goes on, the
    /// engine's reply. Refused, with the game unchanged, when it is not the player's turn, when
    /// a square name is not a square, or when the move is not legal.
    pub fn play_user_move(&mut self, request: &MoveRequest) -> (r: Result<(), ApiError>)
        requires
            game_position(old(self).position.board),
            tt_scores_bounded(old(self).position.transposition_table@),
            limit_depth(old(self).search_limit) < 3_000_000,
            old(self).position.moves_counter < u32::MAX - 1,
            old(self).move_history@.len() < u32::MAX - 1,
        ensures
            ({
                let b0 = old(self).position.board;
                if b0.side_to_move != old(self).user_color {
                    &&& r matches Err(ApiError::BadRequest(msg))
                    &&& msg@ == "It's not your turn"@
                    &&& *final(self) == *old(self)
                } else if square_of_text(request.origin@) is None {
                    &&& r matches Err(ApiError::BadRequest(msg))
                    &&& msg@ == "Invalid origin square"@
                    &&& *final(self) == *old(self)
                } else if square_of_text(request.destination@) is None {
                    &&& r matches Err(ApiError::BadRequest(msg))
                    &&& msg@ == "Invalid destination square"@
                    &&& *final(self) == *old(self)
                } else {
                    match legal_move_of_text(request_text(*request), b0) {
                        None => {
                            &&& r matches Err(ApiError::BadRequest(msg))
                            &&& msg@ == "Illegal move"@
                            &&& *final(self) == *old(self)
                        },
                        Some(m) => {
                            &&& r is Ok
                            &&& exists|g1: Game|
                                {
                                    &&& half_move_recorded(
                                        *old(self),
                                        g1,
                                        m,
                                        square_of_text(request.origin@)->0,
                                        square_of_text(request.destination@)->0,
                                        match request.promotion {
                                            Some(c) => Some(ascii_upper(c)),
                                            None => None,
                                        },
                                    )
                                    &&& g1.position.transposition_table@
                                        == old(self).position.transposition_table@
                                    &&& if status_of(g1.position) == GameStatus::InProgress {
                                        engine_turn(g1, *final(self))
                                    } else {
                                        *final(self) == g1
                                    }
                                }
                        },
                    }
                }
            }),
            game_position(final(self).position.board),
            tt_scores_bounded(final(self).position.transposition_table@),
    {
        if self.position.board.side_to_move != self.user_color {
            return Err(ApiError::BadRequest(String::from_str("It's not your turn")));
        }
        let origin = match Position::square_from_str(request.origin.as_str()) {
            Some(o) => o,
            None => {
                return Err(ApiError::BadRequest(String::from_str("Invalid origin square")));
            },
        };
        let destination = match Position::square_from_str(request.destination.as_str()) {
            Some(d) => d,
            None => {
                return Err(ApiError::BadRequest(String::from_str("Invalid destination square")));
            },
        };
        let text = request.move_text();
        let squares_before = self.position.board.squares;
        let mover = self.position.board.side_to_move;
        let ghost g0 = *self;
        let ghost b0 = self.position.board;
        proof {
            law_game_position_searchable(b0);
        }
        match self.position.apply_move_str(text.as_str()) {
            Ok(()) => {},
            Err(_) => {
                return Err(ApiError::BadRequest(String::from_str("Illegal move")));
            },
        }
        let ghost m = legal_move_of_text(request_text(*request), b0)->0;
        proof {
            law_board_after_game_position(b0, m);
            law_game_position_searchable(self.position.board);
        }
        self.position.record_real_move();
        let ply = self.move_history.len() as u32 + 1;
        let letter = match request.promotion {
            Some(c) => Some(to_ascii_upper(c)),
            None => None,
        };
        let notation = describe_move(squares_before, origin, destination, letter, &self.position);
        let squares = squares_vec(&self.position.board.squares);
        self.move_history.push(MoveRecord { ply, color: mover, notation, squares });
        proof {
            assert(self.move_history@.drop_last() =~= g0.move_history@);
        }
        let ghost g1 = *self;
        if self.position.game_status() == GameStatus::InProgress {
            self.play_engine_move();
        }
        Ok(())
    }

    /// A new game for a player of `user_color` with the engine searching to `search_limit`:
    /// the starting board, with the engine's first move played and recorded when the engine
    /// has white.
    pub fn new(user_color: Color, search_limit: SearchLimit, last_active: std::time::Instant) -> (g: Game)
        requires
            limit_depth(search_limit) < 3_000_000,
        ensures
            g.user_color == user_color,
            g.search_limit == search_limit,
            g.last_active == last_active,
            exists|g0: Game|
                #[trigger] fresh_game(g0, user_color, search_limit, last_active) && if user_color
                    == Color::White {
                    g == g0
                } else {
                    engine_turn(g0, g)
                },
            game_position(g.position.board),
            tt_scores_bounded(g.position.transposition_table@),
    {
        let mut position = Position::new(starting_board());
        position.position_history.push(position.board.zobrian_hash);
        let mut game = Game {
            position,
            user_color,
            search_limit,
            move_history: Vec::new(),
            last_active,
        };
        proof {
            law_start_is_game_position(game.position.board);
            assert(game.position.position_history@ =~= seq![0u64]);
        }
        let ghost g0 = game;
        if game.position.board.side_to_move != user_color {
            game.play_engine_move();
        }
        proof {
            assert(fresh_game(g0, user_color, search_limit, last_active));
            assert(if user_color == Color::White {
                game == g0
            } else {
                engine_turn(g0, game)
            });
        }
        game
    }
}

/// Most games the service keeps at once; creating one more evicts the longest idle game.
pub const MAX_GAMES: usize = 500;

/// A store holding `count` games must give one up before it takes a new one.
pub fn store_is_full(count: usize) -> (r: bool)
    ensures
        r == (count >= MAX_GAMES),
{
    count >= MAX_GAMES
}

/// The game to evict, given how long each game has been idle: the first of the longest idle,
/// none for an empty store.
pub fn longest_idle(idle: &Vec<u128>) -> (r: Option<usize>)
    ensures
        idle@.len() == 0 <==> r is None,
        r matches Some(k) ==> {
            &&& k < idle@.len()
            &&& forall|j: int| 0 <= j < idle@.len() ==> idle@[j] <= idle@[k as int]
            &&& forall|j: int| 0 <= j < k ==> idle@[j] < idle@[k as int]
        },
{
    if idle.len() == 0 {
        return None;
    }
    let mut k: usize = 0;
    let mut i: usize = 1;
    while i < idle.len()
        invariant
            1 <= i <= idle@.len(),
            k < i,
            forall|j: int| 0 <= j < i ==> idle@[j] <= idle@[k as int],
            forall|j: int| 0 <= j < k ==> idle@[j] < idle@[k as int],
        decreases idle@.len() - i,
    {
        if idle[i] > idle[k] {
            k = i;
        }
        i = i + 1;
    }
    Some(k)
}

/// The games in play, each under its id: `ids[i]` names `games[i]`.
pub struct GameStore {
    pub ids: Vec<u128>,
    pub games: Vec<Game>,
}

/// `k` is the first of the longest idle games.
pub open spec fn first_longest(idle: Seq<u128>, k: int) -> bool {
    &&& 0 <= k < idle.len()
    &&& forall|j: int| 0 <= j < idle.len() ==> idle[j] <= idle[k]
    &&& forall|j: int| 0 <= j < k ==> idle[j] < idle[k]
}

proof fn lemma_first_longest_unique(idle: Seq<u128>, a: int, b: int)
    requires
        first_longest(idle, a),
        first_longest(idle, b),
    ensures
        a == b,
{
    if a < b {
        assert(idle[a] < idle[b]);
        assert(idle[b] <= idle[a]);
    } else if b < a {
        assert(idle[b] < idle[a]);
        assert(idle[a] <= idle[b]);
    }
}

impl GameStore {
    /// Ids and games pair up, and no id names two games.
    pub open spec fn wf(self) -> bool {
        &&& self.ids@.len() == self.games@.len()
        &&& forall|i: int, j: int| 0 <= i < j < self.ids@.len() ==> self.ids@[i] != self.ids@[j]
    }

    /// The game stored under `id`, if any.
    pub open spec fn game_of(self, id: u128) -> Option<Game> {
        if exists|i: int| 0 <= i < self.ids@.len() && self.ids@[i] == id {
            let i = choose|i: int| 0 <= i < self.ids@.len() && self.ids@[i] == id;
            Some(self.games@[i])
        } else {
            None
        }
    }

    /// The id that making room evicts from this store, given how long each game has been
    /// idle: none while the store is below `MAX_GAMES`, else the first of the longest idle.
    pub open spec fn evicted(self, idle: Seq<u128>) -> Option<u128> {
        if self.ids@.len() < MAX_GAMES {
            None
        } else {
            Some(self.ids@[choose|k: int| first_longest(idle, k)])
        }
    }

    proof fn lemma_game_at(self, i: int)
        requires
            self.wf(),
            0 <= i < self.ids@.len(),
        ensures
            self.game_of(self.ids@[i]) == Some(self.games@[i]),
    {
        let id = self.ids@[i];
        assert(exists|j: int| 0 <= j < self.ids@.len() && self.ids@[j] == id);
        let c = choose|j: int| 0 <= j < self.ids@.len() && self.ids@[j] == id;
        if c != i {
            if c < i {
                assert(self.ids@[c] != self.ids@[i]);
            } else {
                assert(self.ids@[i] != self.ids@[c]);
            }
        }
    }

    /// Whether ids and games pair up and no id names two games.
    pub fn is_well_formed(&self) -> (r: bool)
        ensures
            r == self.wf(),
    {
        if self.ids.len() != self.games.len() {
            return false;
        }
        let n = self.ids.len();
        let mut i: usize = 0;
        while i < n
            invariant
                n == self.ids@.len(),
                i <= n,
                forall|a: int, b: int| 0 <= a < b < n && a < i ==> self.ids@[a] != self.ids@[b],
            decreases n - i,
        {
            let mut j: usize = i + 1;
            while j < n
                invariant
                    n == self.ids@.len(),
                    i < n,
                    i < j <= n,
                    forall|a: int, b: int| 0 <= a < b < n && a < i ==> self.ids@[a] != self.ids@[b],
                    forall|b: int| i < b < j ==> self.ids@[i as int] != self.ids@[b],
                decreases n - j,
            {
                if self.ids[i] == self.ids[j] {
                    return false;
                }
                j = j + 1;
            }
            i = i + 1;
        }
        true
    }

    /// An empty store.
    pub fn new() -> (s: GameStore)
        ensures
            s.wf(),
            s.ids@.len() == 0,
            forall|id: u128| s.game_of(id) is None,
    {
        GameStore { ids: Vec::new(), games: Vec::new() }
    }

    /// Where the game of `id` is kept, if the store has one.
    pub fn find(&self, id: u128) -> (r: Option<usize>)
        requires
            self.wf(),
        ensures
            r is None <==> self.game_of(id) is None,
            r matches Some(i) ==> i < self.ids@.len() && self.ids@[i as int] == id
                && self.game_of(id) == Some(self.games@[i as int]),
    {
        let mut i: usize = 0;
        while i < self.ids.len()
            invariant
                self.wf(),
                i <= self.ids@.len(),
                forall|j: int| 0 <= j < i ==> self.ids@[j] != id,
            decreases self.ids@.len() - i,
        {
            if self.ids[i] == id {
                proof {
                    self.lemma_game_at(i as int);
                }
                return Some(i);
            }
            i = i + 1;
        }
        None
    }

    /// Stores `game` under `id`, first evicting the longest idle game when the store already
    /// holds `MAX_GAMES`; `idle[i]` is how long the game under `ids[i]` has gone without a
    /// move. The store never holds more than `MAX_GAMES` games.
    pub fn insert(&mut self, id: u128, game: Game, idle: &Vec<u128>)
        requires
            old(self).wf(),
            old(self).ids@.len() <= MAX_GAMES,
            idle@.len() == old(self).ids@.len(),
        ensures
            final(self).wf(),
            final(self).ids@.len() <= MAX_GAMES,
            final(self).game_of(id) == Some(game),
            forall|k: u128|
                k != id ==> #[trigger] final(self).game_of(k) == if old(self).evicted(idle@) == Some(k) {
                    None
                } else {
                    old(self).game_of(k)
                },
    {
        let ghost s0 = *self;
        if store_is_full(self.ids.len()) {
            let k = match longest_idle(idle) {
                Some(k) => k,
                None => {
                    return;
                },
            };
            proof {
                let c = choose|j: int| first_longest(idle@, j);
                assert(first_longest(idle@, k as int));
                lemma_first_longest_unique(idle@, c, k as int);
            }
            let _ = self.ids.remove(k);
            let _ = self.games.remove(k);
            proof {
                assert forall|a: int, b: int| 0 <= a < b < self.ids@.len() implies self.ids@[a]
                    != self.ids@[b] by {
                    let a0 = if a < k { a } else { a + 1 };
                    let b0 = if b < k { b } else { b + 1 };
                    assert(self.ids@[a] == s0.ids@[a0]);
                    assert(self.ids@[b] == s0.ids@[b0]);
                }
                assert forall|x: u128| x != s0.ids@[k as int] implies #[trigger] self.game_of(x)
                    == s0.game_of(x) by {
                    if exists|j: int| 0 <= j < s0.ids@.len() && s0.ids@[j] == x {
                        let j = choose|j: int| 0 <= j < s0.ids@.len() && s0.ids@[j] == x;
                        s0.lemma_game_at(j);
                        let j1 = if j < k { j } else { j - 1 };
                        assert(j != k);
                        assert(self.ids@[j1] == x);
                        self.lemma_game_at(j1);
                    } else {
                        if exists|j: int| 0 <= j < self.ids@.len() && self.ids@[j] == x {
                            let j = choose|j: int| 0 <= j < self.ids@.len() && self.ids@[j] == x;
                            let j0 = if j < k { j } else { j + 1 };
                            assert(s0.ids@[j0] == x);
                        }
                    }
                }
                assert(self.game_of(s0.ids@[k as int]) is None) by {
                    let x = s0.ids@[k as int];
                    if exists|j: int| 0 <= j < self.ids@.len() && self.ids@[j] == x {
                        let j = choose|j: int| 0 <= j < self.ids@.len() && self.ids@[j] == x;
                        let j0 = if j < k { j } else { j + 1 };
                        assert(s0.ids@[j0] == x);
                        if j0 < k {
                            assert(s0.ids@[j0] != s0.ids@[k as int]);
                        } else {
                            assert(s0.ids@[k as int] != s0.ids@[j0]);
                        }
                    }
                }
            }
        }
        let ghost s1 = *self;
        proof {
            assert forall|x: u128| x != id implies #[trigger] s1.game_of(x) == if s0.evicted(idle@)
                == Some(x) {
                None
            } else {
                s0.game_of(x)
            } by {}
        }
        let found = self.find(id);
        match found {
            Some(j) => {
                self.games.set(j, game);
                proof {
                    self.lemma_game_at(j as int);
                    assert forall|x: u128| x != id implies #[trigger] self.game_of(x) == s1.game_of(x) by {
                        if exists|i: int| 0 <= i < s1.ids@.len() && s1.ids@[i] == x {
                            let i = choose|i: int| 0 <= i < s1.ids@.len() && s1.ids@[i] == x;
                            s1.lemma_game_at(i);
                            self.lemma_game_at(i);
                        }
                    }
                }
            },
            None => {
                self.ids.push(id);
                self.games.push(game);
                proof {
                    let n = s1.ids@.len() as int;
                    assert forall|a: int, b: int| 0 <= a < b < self.ids@.len() implies self.ids@[a]
                        != self.ids@[b] by {
                        if b == n {
                            assert(s1.ids@[a] != id);
                        }
                    }
                    self.lemma_game_at(n);
                    assert forall|x: u128| x != id implies #[trigger] self.game_of(x) == s1.game_of(x) by {
                        if exists|i: int| 0 <= i < s1.ids@.len() && s1.ids@[i] == x {
                            let i = choose|i: int| 0 <= i < s1.ids@.len() && s1.ids@[i] == x;
                            s1.lemma_game_at(i);
                            self.lemma_game_at(i);
                        } else if exists|i: int| 0 <= i < self.ids@.len() && self.ids@[i] == x {
                            let i = choose|i: int| 0 <= i < self.ids@.len() && self.ids@[i] == x;
                            assert(i < n);
                        }
                    }
                }
            },
        }
    }
}

} // verus!
