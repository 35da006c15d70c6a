//! The board, the game, move generation, the legality filter and the
//! detection of a side left without a legal move.

use vstd::prelude::*;

use crate::piece::{Color, GameState, Piece, PieceType, Player, color_of, opponent};
use crate::rules::{
    apply_move, at, attacks_king, bishop_move, can_move_from, has_king, has_legal_move,
    holds_color, is_empty, king_attacked, king_move, king_of, knight_move, legal_move_of,
    lists_moves, on_board, open_to, pawn_move, pseudo_legal, queen_move, ray_clear, ray_distance,
    ray_square_empty, rook_move, scale, slide_move,
};

verus! {

/// The piece type on column `col` of a back rank in the standard arrangement.
pub open spec fn back_rank_type(col: int) -> PieceType {
    if col == 0 || col == 7 {
        PieceType::Rook
    } else if col == 1 || col == 6 {
        PieceType::Knight
    } else if col == 2 || col == 5 {
        PieceType::Bishop
    } else if col == 3 {
        PieceType::Queen
    } else {
        PieceType::King
    }
}

/// The occupant of square `i` in the standard initial arrangement.
pub open spec fn initial_occupant(i: int) -> Option<Piece> {
    if 0 <= i < 8 {
        Some(Piece { color: Color::White, piece_type: back_rank_type(i) })
    } else if 8 <= i < 16 {
        Some(Piece { color: Color::White, piece_type: PieceType::Pawn })
    } else if 48 <= i < 56 {
        Some(Piece { color: Color::Black, piece_type: PieceType::Pawn })
    } else if 56 <= i < 64 {
        Some(Piece { color: Color::Black, piece_type: back_rank_type(i - 56) })
    } else {
        None
    }
}

pub open spec fn initial_board() -> Seq<Option<Piece>> {
    Seq::new(64, |i: int| initial_occupant(i))
}

/// The color a move query names with a flag for White.
pub open spec fn color_for(white: bool) -> Color {
    if white {
        Color::White
    } else {
        Color::Black
    }
}

/// The answer to a legality query for moving the piece on (`fr`, `fc`) to
/// (`tr`, `tc`) with `color` to move: coordinates off the board and an empty
/// source are refused, as is a move that leaves `color` without a king;
/// otherwise the move is legal exactly when, once made, no opposing piece
/// reaches a king of `color`.
pub open spec fn legality(
    b: Seq<Option<Piece>>,
    color: Color,
    fr: int,
    fc: int,
    tr: int,
    tc: int,
) -> Result<bool, MoveError> {
    let after = apply_move(b, fr * 8 + fc, tr * 8 + tc);
    if !on_board(fr, fc) || !on_board(tr, tc) {
        Err(MoveError::OutOfBoard)
    } else if is_empty(b, fr, fc) {
        Err(MoveError::EmptySquare)
    } else if !has_king(after, color) {
        Err(MoveError::NoKingFound)
    } else {
        Ok(!king_attacked(after, color))
    }
}

/// Asking the same legality question of the same position twice gives the
/// same answer.
pub proof fn lemma_legality_answers_agree(
    r1: Result<bool, MoveError>,
    r2: Result<bool, MoveError>,
    b: Seq<Option<Piece>>,
    color: Color,
    fr: int,
    fc: int,
    tr: int,
    tc: int,
)
    requires
        r1 == legality(b, color, fr, fc, tr, tc),
        r2 == legality(b, color, fr, fc, tr, tc),
    ensures
        r1 == r2,
{
}

/// Appends `t`, which `moves` does not hold yet.
fn push_new(moves: &mut Vec<(u32, u32)>, t: (u32, u32))
    requires
        old(moves)@.no_duplicates(),
        !old(moves)@.contains(t),
    ensures
        final(moves)@.no_duplicates(),
        forall|x: (u32, u32)|
            #[trigger] final(moves)@.contains(x) <==> old(moves)@.contains(x) || x == t,
{
    let ghost before = moves@;
    moves.push(t);
    assert forall|i: int, j: int| 0 <= i < j < moves@.len() implies moves@[i] != moves@[j] by {
        if j == before.len() {
            assert(before.contains(before[i]));
        }
    };
    assert forall|x: (u32, u32)| #[trigger] moves@.contains(x) <==> before.contains(x) || x == t by {
        if before.contains(x) {
            let j = choose|j: int| 0 <= j < before.len() && before[j] == x;
            assert(moves@[j] == x);
        }
        if x == t {
            assert(moves@[before.len() as int] == x);
        }
    };
}

/// The 64 squares of a chess board, each empty or holding a piece.
#[derive(Clone, Debug)]
pub struct Board {
    squares: Vec<Option<Piece>>,
}

impl View for Board {
    type V = Seq<Option<Piece>>;

    closed spec fn view(&self) -> Seq<Option<Piece>> {
        self.squares@
    }
}

impl Board {
    pub open spec fn wf(&self) -> bool {
        self@.len() == 64
    }

    fn back_rank_piece(color: Color, col: usize) -> (r: Piece)
        requires
            col < 8,
        ensures
            r == (Piece { color, piece_type: back_rank_type(col as int) }),
    {
        let piece_type = if col == 0 || col == 7 {
            PieceType::Rook
        } else if col == 1 || col == 6 {
            PieceType::Knight
        } else if col == 2 || col == 5 {
            PieceType::Bishop
        } else if col == 3 {
            PieceType::Queen
        } else {
            PieceType::King
        };
        Piece::new(color, piece_type)
    }

    /// The standard initial arrangement.
    pub fn new() -> (r: Board)
        ensures
            r.wf(),
            r@ == initial_board(),
    {
        let mut squares: Vec<Option<Piece>> = Vec::with_capacity(64);
        let mut i: usize = 0;
        while i < 64
            invariant
                i <= 64,
                squares@.len() == i,
                forall|j: int| 0 <= j < i ==> squares@[j] == initial_occupant(j),
            decreases 64 - i,
        {
            let occupant = if i < 8 {
                Some(Board::back_rank_piece(Color::White, i))
            } else if i < 16 {
                Some(Piece::new(Color::White, PieceType::Pawn))
            } else if i < 48 {
                None
            } else if i < 56 {
                Some(Piece::new(Color::Black, PieceType::Pawn))
            } else {
                Some(Board::back_rank_piece(Color::Black, i - 56))
            };
            squares.push(occupant);
            i = i + 1;
        }
        assert(squares@ =~= initial_board());
        Board { squares }
    }

    /// A board with the given 64 squares, or `None` for another count.
    pub fn from_squares(squares: Vec<Option<Piece>>) -> (r: Option<Board>)
        ensures
            r is Some <==> squares@.len() == 64,
            r matches Some(b) ==> b@ == squares@,
    {
        if squares.len() == 64 {
            Some(Board { squares })
        } else {
            None
        }
    }

    pub fn get_squares(&self) -> (r: &Vec<Option<Piece>>)
        ensures
            r@ == self@,
    {
        &self.squares
    }

    /// An independent copy of every square.
    fn duplicate(&self) -> (r: Board)
        ensures
            r@ == self@,
    {
        let mut squares: Vec<Option<Piece>> = Vec::with_capacity(self.squares.len());
        let mut i: usize = 0;
        while i < self.squares.len()
            invariant
                i <= self@.len(),
                squares@ == self@.take(i as int),
            decreases self@.len() - i,
        {
            squares.push(self.squares[i]);
            i = i + 1;
            assert(squares@ =~= self@.take(i as int));
        }
        assert(squares@ =~= self@);
        Board { squares }
    }
}

/// A position in play: the board, the side to move and a status label.
#[derive(Clone, Debug)]
pub struct Game {
    player: Player,
    state: GameState,
    board: Board,
}

/// Why a move query was refused.
#[derive(Copy, Clone, Debug, PartialEq, Eq, Structural)]
pub enum MoveError {
    /// The source square holds no piece.
    EmptySquare,
    /// A row or a column lies outside 0 to 7.
    OutOfBoard,
    /// The side to move would have no king on the board.
    NoKingFound,
}

impl Game {
    pub closed spec fn position(&self) -> Seq<Option<Piece>> {
        self.board@
    }

    pub closed spec fn turn(&self) -> Player {
        self.player
    }

    pub closed spec fn status(&self) -> GameState {
        self.state
    }

    pub open spec fn wf(&self) -> bool {
        self.position().len() == 64
    }

    /// The standard initial arrangement, White to move, game in progress.
    pub fn new() -> (r: Game)
        ensures
            r.wf(),
            r.position() == initial_board(),
            r.turn() == Player::WhitePlayer,
            r.status() == GameState::InProgress,
    {
        Game { player: Player::WhitePlayer, state: GameState::InProgress, board: Board::new() }
    }

    /// A game in progress on the given board, with `player` to move.
    pub fn setup(board: Board, player: Player) -> (r: Game)
        ensures
            r.position() == board@,
            r.turn() == player,
            r.status() == GameState::InProgress,
    {
        Game { player, state: GameState::InProgress, board }
    }

    pub fn get_game(self) -> (r: Game)
        ensures
            r == self,
    {
        self
    }

    pub fn get_board(&self) -> (r: &Board)
        ensures
            r@ == self.position(),
    {
        &self.board
    }

    /// Relocates the occupant of `from` to `to`, leaving `from` empty and
    /// replacing whatever stood on `to`. Legality is not checked here.
    pub fn make_move(&mut self, from: u32, to: u32)
        requires
            old(self).wf(),
            from < 64,
            to < 64,
        ensures
            final(self).position() == apply_move(old(self).position(), from as int, to as int),
            final(self).turn() == old(self).turn(),
            final(self).status() == old(self).status(),
            final(self).wf(),
    {
        let moving = self.board.squares[from as usize];
        self.board.squares.set(from as usize, None);
        self.board.squares.set(to as usize, moving);
    }

    /// Promotion is not part of these rules: the game is left as it is.
    pub fn set_promotion(&mut self, _piece: &str)
        ensures
            *final(self) == *old(self),
    {
    }

    pub fn get_game_state(&self) -> (r: GameState)
        ensures
            r == self.status(),
    {
        self.state
    }

    pub fn whose_turn(&self) -> (r: Player)
        ensures
            r == self.turn(),
    {
        self.player
    }

    /// Hands the move to the other side.
    pub fn change_player(&mut self)
        ensures
            color_of(final(self).turn()) == opponent(color_of(old(self).turn())),
            final(self).position() == old(self).position(),
            final(self).status() == old(self).status(),
    {
        self.player = match self.player {
            Player::WhitePlayer => Player::BlackPlayer,
            Player::BlackPlayer => Player::WhitePlayer,
        };
    }

    /// The occupant of the on-board square at row `r`, column `c`.
    fn occupant(&self, r: i32, c: i32) -> (p: Option<Piece>)
        requires
            self.wf(),
            on_board(r as int, c as int),
        ensures
            p == at(self.position(), r as int, c as int),
    {
        self.board.squares[(r * 8 + c) as usize]
    }

    /// Appends the square (`fr` + `dr`, `fc` + `dc`) when a piece of `color`
    /// may step onto it.
    fn push_step(&self, moves: &mut Vec<(u32, u32)>, fr: u32, fc: u32, dr: i32, dc: i32, color: Color)
        requires
            self.wf(),
            fr < 8,
            fc < 8,
            -2 <= dr <= 2,
            -2 <= dc <= 2,
            old(moves)@.no_duplicates(),
            forall|t: (u32, u32)|
                #[trigger] old(moves)@.contains(t) ==> t.0 as int != fr + dr || t.1 as int != fc
                    + dc,
        ensures
            final(moves)@.no_duplicates(),
            forall|t: (u32, u32)|
                #[trigger] final(moves)@.contains(t) <==> old(moves)@.contains(t) || (t.0 as int
                    == fr + dr && t.1 as int == fc + dc && open_to(
                    self.position(),
                    fr + dr,
                    fc + dc,
                    color,
                )),
    {
        let r = fr as i32 + dr;
        let c = fc as i32 + dc;
        if 0 <= r && r < 8 && 0 <= c && c < 8 {
            let open = match self.occupant(r, c) {
                Some(p) => p.color != color,
                None => true,
            };
            if open {
                push_new(moves, (r as u32, c as u32));
            }
        }
    }

    /// Appends every destination of a sliding piece of `color` on (`fr`,
    /// `fc`) along direction (`dr`, `dc`): each empty square in turn, then the
    /// first occupied square if an opposing piece holds it.
    fn push_ray(&self, moves: &mut Vec<(u32, u32)>, fr: u32, fc: u32, dr: i32, dc: i32, color: Color)
        requires
            self.wf(),
            fr < 8,
            fc < 8,
            -1 <= dr <= 1,
            -1 <= dc <= 1,
            dr != 0 || dc != 0,
            old(moves)@.no_duplicates(),
            forall|t: (u32, u32)|
                #[trigger] old(moves)@.contains(t) ==> !slide_move(
                    self.position(),
                    fr as int,
                    fc as int,
                    color,
                    dr as int,
                    dc as int,
                    t.0 as int,
                    t.1 as int,
                ),
        ensures
            final(moves)@.no_duplicates(),
            forall|t: (u32, u32)|
                #[trigger] final(moves)@.contains(t) <==> old(moves)@.contains(t) || slide_move(
                    self.position(),
                    fr as int,
                    fc as int,
                    color,
                    dr as int,
                    dc as int,
                    t.0 as int,
                    t.1 as int,
                ),
    {
        let ghost b = self.position();
        let ghost start = moves@;
        let mut r: i32 = fr as i32 + dr;
        let mut c: i32 = fc as i32 + dc;
        let mut k: i32 = 1;
        while 0 <= r && r < 8 && 0 <= c && c < 8
            invariant
                self.wf(),
                b == self.position(),
                fr < 8,
                fc < 8,
                -1 <= dr <= 1,
                -1 <= dc <= 1,
                dr != 0 || dc != 0,
                1 <= k <= 8,
                r == fr + scale(k as int, dr as int),
                c == fc + scale(k as int, dc as int),
                ray_clear(b, fr as int, fc as int, dr as int, dc as int, k as int),
                start == old(moves)@,
                start.no_duplicates(),
                forall|t: (u32, u32)|
                    #[trigger] start.contains(t) ==> !slide_move(
                        b,
                        fr as int,
                        fc as int,
                        color,
                        dr as int,
                        dc as int,
                        t.0 as int,
                        t.1 as int,
                    ),
                moves@.no_duplicates(),
                forall|t: (u32, u32)|
                    #[trigger] moves@.contains(t) <==> start.contains(t) || (slide_move(
                        b,
                        fr as int,
                        fc as int,
                        color,
                        dr as int,
                        dc as int,
                        t.0 as int,
                        t.1 as int,
                    ) && ray_distance(
                        fr as int,
                        fc as int,
                        dr as int,
                        dc as int,
                        t.0 as int,
                        t.1 as int,
                    ) < k),
            decreases 8 - k,
        {
            let occupant = self.occupant(r, c);
            let target = (r as u32, c as u32);
            assert(ray_distance(fr as int, fc as int, dr as int, dc as int, r as int, c as int)
                == k);
            let ghost before = moves@;
            match occupant {
                Some(p) => {
                    assert(!ray_square_empty(b, fr as int, fc as int, dr as int, dc as int, k as int));
                    if p.color != color {
                        assert(slide_move(b, fr as int, fc as int, color, dr as int, dc as int, r as int,
                            c as int));
                        push_new(moves, target);
                    }
                    assert forall|t: (u32, u32)|
                        #[trigger] moves@.contains(t) <==> start.contains(t) || slide_move(
                            b,
                            fr as int,
                            fc as int,
                            color,
                            dr as int,
                            dc as int,
                            t.0 as int,
                            t.1 as int,
                        ) by {
                        let (tr, tc) = (t.0 as int, t.1 as int);
                        if slide_move(b, fr as int, fc as int, color, dr as int, dc as int, tr, tc) {
                            if ray_distance(fr as int, fc as int, dr as int, dc as int, tr, tc) == k {
                                assert(t == target);
                            } else {
                                assert(before.contains(t));
                            }
                        }
                    };
                    return;
                },
                None => {
                    assert(ray_square_empty(b, fr as int, fc as int, dr as int, dc as int, k as int));
                    assert(slide_move(b, fr as int, fc as int, color, dr as int, dc as int, r as int,
                        c as int));
                    push_new(moves, target);
                },
            }
            r = r + dr;
            c = c + dc;
            k = k + 1;
        }
    }

    pub fn possible_moves_king(&self, from: (u32, u32), player_color: Color) -> (r: Vec<(u32, u32)>)
        requires
            self.wf(),
            from.0 < 8,
            from.1 < 8,
        ensures
            r@.no_duplicates(),
            forall|t: (u32, u32)|
                #[trigger] r@.contains(t) <==> king_move(
                    self.position(),
                    from.0 as int,
                    from.1 as int,
                    player_color,
                    t.0 as int,
                    t.1 as int,
                ),
    {
        let (fr, fc) = from;
        let mut moves: Vec<(u32, u32)> = Vec::new();
        self.push_step(&mut moves, fr, fc, 1, -1, player_color);
        self.push_step(&mut moves, fr, fc, 1, 0, player_color);
        self.push_step(&mut moves, fr, fc, 1, 1, player_color);
        self.push_step(&mut moves, fr, fc, 0, -1, player_color);
        self.push_step(&mut moves, fr, fc, 0, 1, player_color);
        self.push_step(&mut moves, fr, fc, -1, -1, player_color);
        self.push_step(&mut moves, fr, fc, -1, 0, player_color);
        self.push_step(&mut moves, fr, fc, -1, 1, player_color);
        moves
    }

    pub fn possible_moves_knight(&self, from: (u32, u32), player_color: Color) -> (r: Vec<(u32, u32)>)
        requires
            self.wf(),
            from.0 < 8,
            from.1 < 8,
        ensures
            r@.no_duplicates(),
            forall|t: (u32, u32)|
                #[trigger] r@.contains(t) <==> knight_move(
                    self.position(),
                    from.0 as int,
                    from.1 as int,
                    player_color,
                    t.0 as int,
                    t.1 as int,
                ),
    {
        let (fr, fc) = from;
        let mut moves: Vec<(u32, u32)> = Vec::new();
        self.push_step(&mut moves, fr, fc, 2, -1, player_color);
        self.push_step(&mut moves, fr, fc, 2, 1, player_color);
        self.push_step(&mut moves, fr, fc, 1, -2, player_color);
        self.push_step(&mut moves, fr, fc, 1, 2, player_color);
        self.push_step(&mut moves, fr, fc, -1, -2, player_color);
        self.push_step(&mut moves, fr, fc, -1, 2, player_color);
        self.push_step(&mut moves, fr, fc, -2, -1, player_color);
        self.push_step(&mut moves, fr, fc, -2, 1, player_color);
        moves
    }

    pub fn possible_moves_rook(&self, from: (u32, u32), player_color: Color) -> (r: Vec<(u32, u32)>)
        requires
            self.wf(),
            from.0 < 8,
            from.1 < 8,
        ensures
            r@.no_duplicates(),
            forall|t: (u32, u32)|
                #[trigger] r@.contains(t) <==> rook_move(
                    self.position(),
                    from.0 as int,
                    from.1 as int,
                    player_color,
                    t.0 as int,
                    t.1 as int,
                ),
    {
        let (fr, fc) = from;
        let mut moves: Vec<(u32, u32)> = Vec::new();
        self.push_ray(&mut moves, fr, fc, 1, 0, player_color);
        self.push_ray(&mut moves, fr, fc, -1, 0, player_color);
        self.push_ray(&mut moves, fr, fc, 0, 1, player_color);
        self.push_ray(&mut moves, fr, fc, 0, -1, player_color);
        moves
    }

    pub fn possible_moves_bishop(&self, from: (u32, u32), player_color: Color) -> (r: Vec<(u32, u32)>)
        requires
            self.wf(),
            from.0 < 8,
            from.1 < 8,
        ensures
            r@.no_duplicates(),
            forall|t: (u32, u32)|
                #[trigger] r@.contains(t) <==> bishop_move(
                    self.position(),
                    from.0 as int,
                    from.1 as int,
                    player_color,
                    t.0 as int,
                    t.1 as int,
                ),
    {
        let (fr, fc) = from;
        let mut moves: Vec<(u32, u32)> = Vec::new();
        self.push_ray(&mut moves, fr, fc, 1, 1, player_color);
        self.push_ray(&mut moves, fr, fc, 1, -1, player_color);
        self.push_ray(&mut moves, fr, fc, -1, 1, player_color);
        self.push_ray(&mut moves, fr, fc, -1, -1, player_color);
        moves
    }

    pub fn possible_moves_queen(&self, from: (u32, u32), player_color: Color) -> (r: Vec<(u32, u32)>)
        requires
            self.wf(),
            from.0 < 8,
            from.1 < 8,
        ensures
            r@.no_duplicates(),
            forall|t: (u32, u32)|
                #[trigger] r@.contains(t) <==> queen_move(
                    self.position(),
                    from.0 as int,
                    from.1 as int,
                    player_color,
                    t.0 as int,
                    t.1 as int,
                ),
    {
        let (fr, fc) = from;
        let mut moves: Vec<(u32, u32)> = Vec::new();
        self.push_ray(&mut moves, fr, fc, 1, 0, player_color);
        self.push_ray(&mut moves, fr, fc, -1, 0, player_color);
        self.push_ray(&mut moves, fr, fc, 0, 1, player_color);
        self.push_ray(&mut moves, fr, fc, 0, -1, player_color);
        self.push_ray(&mut moves, fr, fc, 1, 1, player_color);
        self.push_ray(&mut moves, fr, fc, 1, -1, player_color);
        self.push_ray(&mut moves, fr, fc, -1, 1, player_color);
        self.push_ray(&mut moves, fr, fc, -1, -1, player_color);
        moves
    }

    /// Pawn destinations: the diagonal squares ahead when an opposing piece
    /// holds them, the square ahead when it is empty, and two squares ahead
    /// from the starting row when that square is empty. The square passed
    /// over by the double step is not examined.
    pub fn possible_moves_pawn(&self, from: (u32, u32), player_color: Color) -> (r: Vec<(u32, u32)>)
        requires
            self.wf(),
            from.0 < 8,
            from.1 < 8,
        ensures
            r@.no_duplicates(),
            forall|t: (u32, u32)|
                #[trigger] r@.contains(t) <==> pawn_move(
                    self.position(),
                    from.0 as int,
                    from.1 as int,
                    player_color,
                    t.0 as int,
                    t.1 as int,
                ),
    {
        let ghost b = self.position();
        let (fr, fc) = from;
        let row = fr as i32;
        let col = fc as i32;
        let (forward, start_row): (i32, i32) = match player_color {
            Color::White => (1, 1),
            Color::Black => (-1, 6),
        };
        let mut moves: Vec<(u32, u32)> = Vec::new();
        let ahead = row + forward;
        if 0 <= ahead && ahead < 8 {
            if col + 1 < 8 {
                if let Some(p) = self.occupant(ahead, col + 1) {
                    if p.color != player_color {
                        push_new(&mut moves, (ahead as u32, (col + 1) as u32));
                    }
                }
            }
            if self.occupant(ahead, col).is_none() {
                push_new(&mut moves, (ahead as u32, col as u32));
            }
            if col >= 1 {
                if let Some(p) = self.occupant(ahead, col - 1) {
                    if p.color != player_color {
                        push_new(&mut moves, (ahead as u32, (col - 1) as u32));
                    }
                }
            }
        }
        let two_ahead = row + 2 * forward;
        if row == start_row && 0 <= two_ahead && two_ahead < 8 {
            if self.occupant(two_ahead, col).is_none() {
                push_new(&mut moves, (two_ahead as u32, col as u32));
            }
        }
        moves
    }

    /// The pseudo-legal destinations of the piece on square `from`, for the
    /// side named by `white`; none for an empty square.
    pub fn get_possible_moves(&self, from: u32, white: bool) -> (r: Vec<(u32, u32)>)
        requires
            self.wf(),
            from < 64,
        ensures
            lists_moves(r@, self.position(), from as int / 8, from as int % 8, color_for(white)),
    {
        let player_color = if white {
            Color::White
        } else {
            Color::Black
        };
        let from_row_column = (from / 8, from % 8);
        match self.board.squares[from as usize] {
            Some(piece) => match piece.piece_type {
                PieceType::King => self.possible_moves_king(from_row_column, player_color),
                PieceType::Knight => self.possible_moves_knight(from_row_column, player_color),
                PieceType::Rook => self.possible_moves_rook(from_row_column, player_color),
                PieceType::Queen => self.possible_moves_queen(from_row_column, player_color),
                PieceType::Bishop => self.possible_moves_bishop(from_row_column, player_color),
                PieceType::Pawn => self.possible_moves_pawn(from_row_column, player_color),
            },
            None => Vec::new(),
        }
    }

    /// Whether a king of `color` stands on the board.
    fn king_present(&self, color: Color) -> (r: bool)
        requires
            self.wf(),
        ensures
            r == has_king(self.position(), color),
    {
        let ghost b = self.position();
        let mut i: u32 = 0;
        while i < 64
            invariant
                self.wf(),
                b == self.position(),
                i <= 64,
                forall|r: int, c: int|
                    on_board(r, c) && r * 8 + c < i ==> #[trigger] at(b, r, c) != Some(
                        king_of(color),
                    ),
            decreases 64 - i,
        {
            if let Some(p) = self.board.squares[i as usize] {
                if p.color == color && p.piece_type == PieceType::King {
                    assert(at(b, i as int / 8, i as int % 8) == Some(king_of(color)));
                    return true;
                }
            }
            i = i + 1;
        }
        false
    }

    /// Whether some piece opposing `color` reaches a king of `color`.
    fn king_under_attack(&self, color: Color) -> (r: bool)
        requires
            self.wf(),
        ensures
            r == king_attacked(self.position(), color),
    {
        let ghost b = self.position();
        let attacker = match color {
            Color::White => Color::Black,
            Color::Black => Color::White,
        };
        let mut i: u32 = 0;
        while i < 64
            invariant
                self.wf(),
                b == self.position(),
                i <= 64,
                attacker == opponent(color),
                forall|r: int, c: int|
                    on_board(r, c) && r * 8 + c < i ==> !#[trigger] attacks_king(b, color, r, c),
            decreases 64 - i,
        {
            let ghost sr = i as int / 8;
            let ghost sc = i as int % 8;
            proof {
                crate::square::lemma_square_bijection(0, 0, i as int);
            }
            assert(on_board(sr, sc) && sr * 8 + sc == i);
            if let Some(p) = self.board.squares[i as usize] {
                if p.color == attacker {
                    assert(holds_color(b, sr, sc, attacker));
                    let moves = self.get_possible_moves(i, attacker == Color::White);
                    let mut j: usize = 0;
                    while j < moves.len()
                        invariant
                            self.wf(),
                            b == self.position(),
                            j <= moves@.len(),
                            lists_moves(moves@, b, sr, sc, attacker),
                            attacker == opponent(color),
                            on_board(sr, sc),
                            holds_color(b, sr, sc, attacker),
                            forall|jj: int|
                                0 <= jj < j ==> at(b, moves@[jj].0 as int, moves@[jj].1 as int)
                                    != Some(king_of(color)),
                        decreases moves@.len() - j,
                    {
                        let (tr, tc) = moves[j];
                        assert(moves@.contains(moves@[j as int]));
                        if let Some(q) = self.occupant(tr as i32, tc as i32) {
                            if q.color == color && q.piece_type == PieceType::King {
                                assert(pseudo_legal(b, sr, sc, attacker, tr as int, tc as int));
                                assert(attacks_king(b, color, sr, sc));
                                return true;
                            }
                        }
                        j = j + 1;
                    }
                    assert forall|tr: int, tc: int|
                        on_board(tr, tc) && #[trigger] pseudo_legal(b, sr, sc, attacker, tr, tc)
                        implies at(b, tr, tc) != Some(king_of(color)) by {
                        assert(moves@.contains((tr as u32, tc as u32)));
                    };
                }
            }
            assert(!attacks_king(b, color, sr, sc));
            i = i + 1;
        }
        false
    }

    /// Whether moving the piece on `from` to `to` keeps the mover's king
    /// safe. The move is tried on a private copy of the position, which
    /// stays untouched.
    pub fn legal_move(&self, to: (u32, u32), from: (u32, u32)) -> (r: Result<bool, MoveError>)
        requires
            self.wf(),
        ensures
            r == legality(
                self.position(),
                color_of(self.turn()),
                from.0 as int,
                from.1 as int,
                to.0 as int,
                to.1 as int,
            ),
    {
        if from.0 >= 8 || from.1 >= 8 || to.0 >= 8 || to.1 >= 8 {
            return Err(MoveError::OutOfBoard);
        }
        let from_square = from.0 * 8 + from.1;
        let to_square = to.0 * 8 + to.1;
        if self.board.squares[from_square as usize].is_none() {
            return Err(MoveError::EmptySquare);
        }
        let player_color = self.player.color();
        let mut simulation = Game {
            player: self.player,
            state: self.state,
            board: self.board.duplicate(),
        };
        simulation.make_move(from_square, to_square);
        if !simulation.king_present(player_color) {
            return Err(MoveError::NoKingFound);
        }
        Ok(!simulation.king_under_attack(player_color))
    }

    /// Whether the side to move has no legal move at all. This does not
    /// tell a checkmate from a stalemate: both leave the side without a move.
    pub fn checkmate(&self) -> (r: bool)
        requires
            self.wf(),
        ensures
            r == !has_legal_move(self.position(), color_of(self.turn())),
    {
        let ghost b = self.position();
        let player_color = self.player.color();
        let mut i: u32 = 0;
        while i < 64
            invariant
                self.wf(),
                b == self.position(),
                i <= 64,
                player_color == color_of(self.turn()),
                forall|r: int, c: int|
                    on_board(r, c) && r * 8 + c < i ==> !#[trigger] can_move_from(
                        b,
                        player_color,
                        r,
                        c,
                    ),
            decreases 64 - i,
        {
            let ghost sr = i as int / 8;
            let ghost sc = i as int % 8;
            proof {
                crate::square::lemma_square_bijection(0, 0, i as int);
            }
            assert(on_board(sr, sc) && sr * 8 + sc == i);
            if let Some(p) = self.board.squares[i as usize] {
                if p.color == player_color {
                    assert(holds_color(b, sr, sc, player_color));
                    let moves = self.get_possible_moves(i, player_color == Color::White);
                    let mut j: usize = 0;
                    while j < moves.len()
                        invariant
                            self.wf(),
                            b == self.position(),
                            j <= moves@.len(),
                            player_color == color_of(self.turn()),
                            lists_moves(moves@, b, sr, sc, player_color),
                            on_board(sr, sc),
                            sr * 8 + sc == i,
                            holds_color(b, sr, sc, player_color),
                            forall|jj: int|
                                0 <= jj < j ==> !legal_move_of(
                                    b,
                                    player_color,
                                    sr,
                                    sc,
                                    moves@[jj].0 as int,
                                    moves@[jj].1 as int,
                                ),
                        decreases moves@.len() - j,
                    {
                        let (tr, tc) = moves[j];
                        assert(moves@.contains(moves@[j as int]));
                        match self.legal_move((tr, tc), (i / 8, i % 8)) {
                            Ok(true) => {
                                assert(legal_move_of(b, player_color, sr, sc, tr as int, tc as int));
                                assert(can_move_from(b, player_color, sr, sc));
                                return false;
                            },
                            _ => {},
                        }
                        j = j + 1;
                    }
                    assert forall|tr: int, tc: int|
                        !#[trigger] legal_move_of(b, player_color, sr, sc, tr, tc) by {
                        if legal_move_of(b, player_color, sr, sc, tr, tc) {
                            assert(moves@.contains((tr as u32, tc as u32)));
                        }
                    };
                }
            }
            assert(!can_move_from(b, player_color, sr, sc));
            i = i + 1;
        }
        true
    }

    /// Whether square `square` holds a piece of the side to move.
    pub fn holds_own_piece(&self, square: u32) -> (r: bool)
        requires
            self.wf(),
            square < 64,
        ensures
            r == holds_color(
                self.position(),
                square as int / 8,
                square as int % 8,
                color_of(self.turn()),
            ),
    {
        match self.board.squares[square as usize] {
            Some(p) => p.color == self.player.color(),
            None => false,
        }
    }

    /// The legal destinations of the piece on square `from` for the side to
    /// move: its pseudo-legal destinations that pass the legality filter.
    pub fn legal_moves(&self, from: u32) -> (r: Vec<(u32, u32)>)
        requires
            self.wf(),
            from < 64,
        ensures
            r@.no_duplicates(),
            forall|t: (u32, u32)|
                #[trigger] r@.contains(t) <==> pseudo_legal(
                    self.position(),
                    from as int / 8,
                    from as int % 8,
                    color_of(self.turn()),
                    t.0 as int,
                    t.1 as int,
                ) && legality(
                    self.position(),
                    color_of(self.turn()),
                    from as int / 8,
                    from as int % 8,
                    t.0 as int,
                    t.1 as int,
                ) == Ok::<bool, MoveError>(true),
    {
        let ghost b = self.position();
        let ghost color = color_of(self.turn());
        let candidates = self.get_possible_moves(from, self.player.color() == Color::White);
        let mut moves: Vec<(u32, u32)> = Vec::new();
        let mut j: usize = 0;
        while j < candidates.len()
            invariant
                self.wf(),
                b == self.position(),
                color == color_of(self.turn()),
                j <= candidates@.len(),
                from < 64,
                lists_moves(candidates@, b, from as int / 8, from as int % 8, color),
                moves@.no_duplicates(),
                forall|t: (u32, u32)|
                    #[trigger] moves@.contains(t) <==> (candidates@.subrange(0, j as int).contains(t)
                        && legality(b, color, from as int / 8, from as int % 8, t.0 as int, t.1 as int)
                        == Ok::<bool, MoveError>(true)),
            decreases candidates@.len() - j,
        {
            let t = candidates[j];
            let ghost seen = candidates@.subrange(0, j as int);
            let ghost next = candidates@.subrange(0, j + 1);
            assert(next =~= seen.push(t));
            assert forall|x: (u32, u32)| #[trigger] next.contains(x) <==> seen.contains(x) || x == t by {
                if seen.contains(x) {
                    let k = choose|k: int| 0 <= k < seen.len() && seen[k] == x;
                    assert(next[k] == x);
                }
                if x == t {
                    assert(next[j as int] == x);
                }
            };
            assert(!seen.contains(t)) by {
                if seen.contains(t) {
                    let k = choose|k: int| 0 <= k < seen.len() && seen[k] == t;
                    assert(candidates@[k] == candidates@[j as int]);
                }
            };
            match self.legal_move(t, (from / 8, from % 8)) {
                Ok(true) => {
                    push_new(&mut moves, t);
                },
                _ => {},
            }
            j = j + 1;
        }
        assert(candidates@.subrange(0, candidates@.len() as int) =~= candidates@);
        moves
    }
}

} // verus!
