//! The game: a board, the moves made on it, and what each line of input does
//! to both.

use vstd::prelude::*;
use vstd::string::*;
use crate::board::{cells_after_move, empty_slot, is_arrangement, lemma_arrangement_slots,
    lemma_swapped_arrangement, move_verdict, slot_of, solved_cells, Board, Cell, MoveError};
use crate::text::{chars_of, decimal_text, number_of, parse_number, push_decimal, same_chars, trim,
    trimmed};

verus! {

/// What a line of input asks for.
#[derive(Clone, Copy, Debug, PartialEq, Eq)]
pub enum Request {
    /// To end the game.
    Quit,
    /// To move the tile with this number.
    Tile(usize),
    /// Nothing that the game understands.
    Unrecognized,
}

/// Where a game stands.
#[derive(Clone, Copy, Debug, PartialEq, Eq)]
pub enum Status {
    /// The board is not solved and the player has not quit.
    Playing,
    /// The board is solved.
    Won,
    /// The player has quit.
    Quit,
}

/// What the game answers to a request.
#[derive(Clone, Copy, Debug, PartialEq, Eq)]
pub enum Report {
    /// The tile was moved, and the board is not solved yet.
    Moved,
    /// The tile was moved and the board is solved, after this many moves.
    Won { moves: usize },
    /// The player has quit, after this many moves.
    Quit { moves: usize },
    /// No tile has this number.
    NotFound { value: usize },
    /// The tile with this number does not lie beside the empty slot.
    Illegal { value: usize },
    /// The line was neither the word `quit` nor a number.
    Unrecognized,
    /// The game was over before the request came.
    Closed,
}

/// A game as contracts see it.
pub struct GameView {
    /// What the sixteen slots of the board hold.
    pub cells: Seq<Cell>,
    /// The number of moves made so far.
    pub moves: usize,
    /// Where the game stands.
    pub status: Status,
}

/// What a line of input asks for, blanks at its ends left aside: the word
/// `quit` asks to end the game, a number asks for the tile of that number,
/// anything else is not understood.
pub open spec fn request_of(line: Seq<char>) -> Request {
    let text = trimmed(line);
    if text == "quit"@ {
        Request::Quit
    } else {
        match number_of(text) {
            Some(value) => Request::Tile(value),
            None => Request::Unrecognized,
        }
    }
}

/// The status with which a game on these cells begins, and in which it is
/// after a move.
pub open spec fn status_of(cells: Seq<Cell>) -> Status {
    if cells == solved_cells() {
        Status::Won
    } else {
        Status::Playing
    }
}

/// The status of a game fits its board: the board holds an arrangement, a game
/// that is won has it in the solved order, and a game that is being played
/// has it in another.
pub open spec fn is_coherent(game: GameView) -> bool {
    &&& is_arrangement(game.cells)
    &&& game.status == Status::Won ==> game.cells == solved_cells()
    &&& game.status == Status::Playing ==> game.cells != solved_cells()
}

/// One more move, as far as the counter reaches.
pub open spec fn one_more(moves: usize) -> usize {
    if moves < usize::MAX {
        (moves + 1) as usize
    } else {
        moves
    }
}

/// The game after a request. A game that is over stays as it is. In a game
/// that is being played, a request to quit ends it; a request for a tile that
/// can move moves it, counts the move, and ends the game where the board is
/// then solved; every other request leaves the game as it is.
pub open spec fn game_after(game: GameView, request: Request) -> GameView {
    if game.status != Status::Playing {
        game
    } else {
        match request {
            Request::Quit => GameView { status: Status::Quit, ..game },
            Request::Unrecognized => game,
            Request::Tile(value) => if move_verdict(game.cells, value) is Ok {
                GameView {
                    cells: cells_after_move(game.cells, value),
                    moves: one_more(game.moves),
                    status: status_of(cells_after_move(game.cells, value)),
                }
            } else {
                game
            },
        }
    }
}

/// What the game answers to a request.
pub open spec fn report_of(game: GameView, request: Request) -> Report {
    if game.status != Status::Playing {
        Report::Closed
    } else {
        match request {
            Request::Quit => Report::Quit { moves: game.moves },
            Request::Unrecognized => Report::Unrecognized,
            Request::Tile(value) => match move_verdict(game.cells, value) {
                Err(MoveError::NotFound) => Report::NotFound { value },
                Err(MoveError::Illegal) => Report::Illegal { value },
                Ok(_) => if game_after(game, request).status == Status::Won {
                    Report::Won { moves: one_more(game.moves) }
                } else {
                    Report::Moved
                },
            },
        }
    }
}

/// The line that tells the player of a report; empty for a plain move and for
/// a game that was over.
pub open spec fn report_line(report: Report) -> Seq<char> {
    match report {
        Report::Moved => Seq::<char>::empty(),
        Report::Won { moves } => "Game won in "@ + decimal_text(moves as nat) + " moves."@,
        Report::Quit { moves } => if moves == 1 {
            "Quit after "@ + decimal_text(moves as nat) + " move."@
        } else {
            "Quit after "@ + decimal_text(moves as nat) + " moves."@
        },
        Report::NotFound { value } => "Could not find number "@ + decimal_text(value as nat)
            + "."@,
        Report::Illegal { value } => "Illegal move: "@ + decimal_text(value as nat) + "."@,
        Report::Unrecognized => "I do not understand your move."@,
        Report::Closed => Seq::<char>::empty(),
    }
}

/// Reads a line of input.
pub fn legalize_input(input: &str) -> (request: Request)
    ensures
        request == request_of(input@),
{
    let text = trim(&chars_of(input));
    if same_chars(&text, &chars_of("quit")) {
        Request::Quit
    } else {
        match parse_number(&text) {
            Some(value) => Request::Tile(value),
            None => Request::Unrecognized,
        }
    }
}

/// Writes the line that tells the player of a report.
pub fn report_text(report: &Report) -> (line: String)
    ensures
        line@ == report_line(*report),
{
    let mut line = String::new();
    match *report {
        Report::Moved => {},
        Report::Won { moves } => {
            line.append("Game won in ");
            push_decimal(&mut line, moves);
            line.append(" moves.");
        },
        Report::Quit { moves } => {
            line.append("Quit after ");
            push_decimal(&mut line, moves);
            if moves == 1 {
                line.append(" move.");
            } else {
                line.append(" moves.");
            }
        },
        Report::NotFound { value } => {
            line.append("Could not find number ");
            push_decimal(&mut line, value);
            line.append(".");
        },
        Report::Illegal { value } => {
            line.append("Illegal move: ");
            push_decimal(&mut line, value);
            line.append(".");
        },
        Report::Unrecognized => {
            line.append("I do not understand your move.");
        },
        Report::Closed => {},
    }
    line
}

/// A game in progress or over.
pub struct Game {
    board: Board,
    moves: usize,
    status: Status,
}

impl View for Game {
    type V = GameView;

    closed spec fn view(&self) -> GameView {
        GameView { cells: self.board@, moves: self.moves, status: self.status }
    }
}

impl Game {
    #[verifier::type_invariant]
    spec fn well_formed(self) -> bool {
        is_coherent(self@)
    }

    /// Begins a game on the given board, with no move made. On a solved
    /// board the game is won as it begins.
    pub fn begin_game(board: Board) -> (game: Game)
        ensures
            game@ == (GameView { cells: board@, moves: 0, status: status_of(board@) }),
            is_coherent(game@),
    {
        let _ = board.locate_empty();
        let status = if board.check_win() {
            Status::Won
        } else {
            Status::Playing
        };
        Game { board, moves: 0, status }
    }

    /// The board as it stands.
    pub fn board(&self) -> (board: &Board)
        ensures
            board@ == self@.cells,
    {
        &self.board
    }

    /// The number of moves made.
    pub fn moves(&self) -> (moves: usize)
        ensures
            moves == self@.moves,
    {
        self.moves
    }

    /// Where the game stands.
    pub fn status(&self) -> (status: Status)
        ensures
            status == self@.status,
            is_coherent(self@),
    {
        proof {
            use_type_invariant(self);
        }
        self.status
    }

    /// Carries out a request and says what came of it.
    pub fn apply(&mut self, request: Request) -> (report: Report)
        ensures
            final(self)@ == game_after(old(self)@, request),
            report == report_of(old(self)@, request),
            is_coherent(final(self)@),
    {
        proof {
            use_type_invariant(&*self);
        }
        match self.status {
            Status::Playing => {},
            _ => {
                return Report::Closed;
            },
        }
        match request {
            Request::Quit => {
                self.status = Status::Quit;
                Report::Quit { moves: self.moves }
            },
            Request::Unrecognized => Report::Unrecognized,
            Request::Tile(value) => {
                let mut board = self.board.clone();
                match board.move_tile(value) {
                    Err(MoveError::NotFound) => Report::NotFound { value },
                    Err(MoveError::Illegal) => Report::Illegal { value },
                    Ok(_) => {
                        let moves = if self.moves < usize::MAX {
                            self.moves + 1
                        } else {
                            self.moves
                        };
                        let won = board.check_win();
                        let status = if won {
                            Status::Won
                        } else {
                            Status::Playing
                        };
                        *self = Game { board, moves, status };
                        if won {
                            Report::Won { moves }
                        } else {
                            Report::Moved
                        }
                    },
                }
            },
        }
    }

    /// Reads a line of input, carries out what it asks for, and says what
    /// came of it.
    pub fn submit(&mut self, line: &str) -> (report: Report)
        ensures
            final(self)@ == game_after(old(self)@, request_of(line@)),
            report == report_of(old(self)@, request_of(line@)),
            is_coherent(final(self)@),
    {
        let request = legalize_input(line);
        self.apply(request)
    }
}

/// Whatever is asked of a game whose status fits its board, the status of the
/// game that results fits its board too; its moves are those made before, or
/// one more; and once over, a game stays as it is.
pub proof fn lemma_game_after(game: GameView, request: Request)
    requires
        is_coherent(game),
    ensures
        is_coherent(game_after(game, request)),
        game_after(game, request).moves == game.moves || game_after(game, request).moves
            == one_more(game.moves),
        game_after(game, request).moves != game.moves ==> report_of(game, request) is Moved
            || report_of(game, request) is Won,
        game.status != Status::Playing ==> game_after(game, request) == game,
{
    if game.status == Status::Playing {
        if let Request::Tile(value) = request {
            if move_verdict(game.cells, value) is Ok {
                lemma_arrangement_slots(game.cells);
                lemma_swapped_arrangement(
                    game.cells,
                    slot_of(game.cells, value),
                    empty_slot(game.cells),
                );
            }
        }
    }
}

} // verus!
