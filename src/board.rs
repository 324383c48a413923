use vstd::prelude::*;

use crate::error::MoveError;
use crate::pieces::Piece;
use crate::rules::{
    sign, distance, between, path_clear, dest_open, empty_squares, start_position, occupied_count,
    side_count, piece_count, kings_unique, queen_move, rook_move, bishop_move, king_move,
    knight_move, pawn_diagonal, pawn_attack, pawn_move, king_of, threatens,
    king_in_check, applied, move_outcome, lemma_legal_moves_away, lemma_applied_kings_unique,
    lemma_line,
};
use crate::theorems::lemma_start_position;
use crate::utils::{
    bishop_row, coords_to_square, file_delta, file_of, king_reach, king_row, knight_reach,
    knight_row, lemma_bishop_row, lemma_king_row, lemma_knight_row, lemma_queen_row, lemma_rook_row,
    lemma_square_coords, on_ray, queen_reach, queen_row, rank_delta, rank_of, rook_row, scaled,
    square_at, square_to_coords, BOARD_SIZE,
};

verus! {

/// A position: 64 squares, each empty or holding one piece. Square `i` lies
/// on rank `i / 8` and file `i % 8`.
#[derive(Copy, Clone)]
pub struct Board {
    pub squares: [Option<Piece>; BOARD_SIZE],
}

/// Whether a pawn `piece` on (`rank`, `file`) covers `king_square`: one of
/// the two squares diagonally in front of it. Occupancy is not looked at.
pub fn pawn_attacks_king(rank: usize, file: usize, king_square: usize, piece: Piece) -> (r: bool)
    requires
        rank < 8,
        file < 8,
    ensures
        r == pawn_diagonal(piece, square_at(rank as int, file as int), king_square as int),
{
    proof {
        lemma_square_coords(rank as int, file as int);
    }
    if piece != Piece::BlackPawn && piece != Piece::WhitePawn {
        return false;
    }
    let dir: i64 = if piece == Piece::BlackPawn {
        -1
    } else {
        1
    };
    let rank_i = rank as i64 + dir;
    if rank_i < 0 || rank_i > 7 {
        return false;
    }
    let rank_u = rank_i as usize;
    if file > 0 {
        if coords_to_square(rank_u, file - 1) == king_square {
            return true;
        }
    }
    if file < 7 {
        if coords_to_square(rank_u, file + 1) == king_square {
            return true;
        }
    }
    proof {
        if pawn_diagonal(piece, square_at(rank as int, file as int), king_square as int) {
            lemma_square_coords(rank_of(king_square as int), file_of(king_square as int));
        }
    }
    false
}

/// Whether a knight `piece` on (`rank`, `file`) covers `king_square`: one
/// jump away. Occupancy is not looked at.
pub fn knight_attacks_king(rank: usize, file: usize, king_square: usize, piece: Piece) -> (r: bool)
    requires
        rank < 8,
        file < 8,
    ensures
        r == (piece.is_knight() && knight_reach(square_at(rank as int, file as int), king_square as int)),
{
    if piece != Piece::WhiteKnight && piece != Piece::BlackKnight {
        return false;
    }
    let from = coords_to_square(rank, file);
    let row = knight_row(from);
    proof {
        lemma_knight_row(from as int, king_square);
    }
    row_contains(&row, king_square)
}

/// The character a square shows: its piece's glyph, or `.` when empty.
pub open spec fn square_glyph(x: Option<Piece>) -> char {
    match x {
        Some(p) => p.glyph(),
        None => '.',
    }
}

/// The digit naming rank `rank` (0 to 7) as players count it, 1 to 8.
pub open spec fn rank_digit(rank: int) -> char {
    if rank == 0 {
        '1'
    } else if rank == 1 {
        '2'
    } else if rank == 2 {
        '3'
    } else if rank == 3 {
        '4'
    } else if rank == 4 {
        '5'
    } else if rank == 5 {
        '6'
    } else if rank == 6 {
        '7'
    } else {
        '8'
    }
}

/// The first `n` files of rank `rank`, each glyph followed by a space.
pub open spec fn cells_text(b: Seq<Option<Piece>>, rank: int, n: int) -> Seq<char>
    decreases n,
{
    if n <= 0 {
        Seq::empty()
    } else {
        cells_text(b, rank, n - 1) + seq![square_glyph(b[square_at(rank, n - 1)]), ' ']
    }
}

/// One line of the picture: the rank's number, then its eight squares.
pub open spec fn rank_text(b: Seq<Option<Piece>>, rank: int) -> Seq<char> {
    seq![rank_digit(rank), ' '] + cells_text(b, rank, 8) + seq!['\n']
}

/// The top `m` lines of the picture, rank 8 first.
pub open spec fn ranks_text(b: Seq<Option<Piece>>, m: int) -> Seq<char>
    decreases m,
{
    if m <= 0 {
        Seq::empty()
    } else {
        ranks_text(b, m - 1) + rank_text(b, 8 - m)
    }
}

/// The whole picture: eight rank lines from rank 8 down to rank 1, then the
/// file letters.
pub open spec fn board_text(b: Seq<Option<Piece>>) -> Seq<char> {
    ranks_text(b, 8) + "  a b c d e f g h\n"@
}

/// Relies on `String::push`: appends `c` at the end of `s`.
#[verifier::external_body]
fn push_char(s: &mut String, c: char)
    ensures
        final(s)@ == old(s)@.push(c),
{
    s.push(c)
}

fn rank_char(rank: usize) -> (c: char)
    requires
        rank < 8,
    ensures
        c == rank_digit(rank as int),
{
    match rank {
        0 => '1',
        1 => '2',
        2 => '3',
        3 => '4',
        4 => '5',
        5 => '6',
        6 => '7',
        _ => '8',
    }
}

/// Whether `row` lists `target`.
fn row_contains(row: &Vec<Option<usize>>, target: usize) -> (r: bool)
    ensures
        r == row@.contains(Some(target)),
{
    let mut i: usize = 0;
    while i < row.len()
        invariant
            i <= row@.len(),
            forall|j: int| 0 <= j < i ==> row@[j] != Some(target),
        decreases row@.len() - i,
    {
        if row[i] == Some(target) {
            return true;
        }
        i += 1;
    }
    false
}

impl Board {
    /// The board's squares may be searched for a side's king.
    pub open spec fn well_formed(&self) -> bool {
        kings_unique(self.squares@)
    }

    /// A board with every square empty.
    pub fn empty() -> (b: Board)
        ensures
            b.squares@ == empty_squares(),
            b.well_formed(),
    {
        let b = Board { squares: [None; BOARD_SIZE] };
        assert(b.squares@ =~= empty_squares());
        b
    }

    /// The standard opening position.
    pub fn set_up() -> (b: Board)
        ensures
            b.squares@ == start_position(),
            b.well_formed(),
            occupied_count(b.squares@) == 32,
            side_count(b.squares@, true) == 16,
            side_count(b.squares@, false) == 16,
            piece_count(b.squares@, Piece::WhiteKing) == 1,
            piece_count(b.squares@, Piece::BlackKing) == 1,
    {
        proof {
            lemma_start_position();
        }
        let squares: [Option<Piece>; BOARD_SIZE] = [
            Some(Piece::WhiteRook),
            Some(Piece::WhiteKnight),
            Some(Piece::WhiteBishop),
            Some(Piece::WhiteQueen),
            Some(Piece::WhiteKing),
            Some(Piece::WhiteBishop),
            Some(Piece::WhiteKnight),
            Some(Piece::WhiteRook),
            Some(Piece::WhitePawn),
            Some(Piece::WhitePawn),
            Some(Piece::WhitePawn),
            Some(Piece::WhitePawn),
            Some(Piece::WhitePawn),
            Some(Piece::WhitePawn),
            Some(Piece::WhitePawn),
            Some(Piece::WhitePawn),
            None,
            None,
            None,
            None,
            None,
            None,
            None,
            None,
            None,
            None,
            None,
            None,
            None,
            None,
            None,
            None,
            None,
            None,
            None,
            None,
            None,
            None,
            None,
            None,
            None,
            None,
            None,
            None,
            None,
            None,
            None,
            None,
            Some(Piece::BlackPawn),
            Some(Piece::BlackPawn),
            Some(Piece::BlackPawn),
            Some(Piece::BlackPawn),
            Some(Piece::BlackPawn),
            Some(Piece::BlackPawn),
            Some(Piece::BlackPawn),
            Some(Piece::BlackPawn),
            Some(Piece::BlackRook),
            Some(Piece::BlackKnight),
            Some(Piece::BlackBishop),
            Some(Piece::BlackQueen),
            Some(Piece::BlackKing),
            Some(Piece::BlackBishop),
            Some(Piece::BlackKnight),
            Some(Piece::BlackRook),
        ];
        let b = Board { squares };
        assert(b.squares@ =~= start_position());
        b
    }

    /// Whether the piece on `from_square` may land on `to_square` as far as
    /// occupancy goes: the destination is empty or holds an enemy piece.
    pub fn can_move_to_square(&self, from_square: usize, to_square: usize) -> (r: bool)
        requires
            from_square < BOARD_SIZE,
            to_square < BOARD_SIZE,
            self.squares@[from_square as int] is Some,
        ensures
            r == dest_open(self.squares@, from_square as int, to_square as int),
    {
        let piece = self.squares[from_square].unwrap();
        match self.squares[to_square] {
            Some(target_piece) => target_piece.is_white_piece() != piece.is_white_piece(),
            None => true,
        }
    }

    /// Whether `piece`, one of `valid_pieces`, may slide from `from_square` to
    /// `to_square`: listed in `attack_row`, nothing in between, and no
    /// friendly piece on the destination.
    fn sliding_piece_can_move_to_square(
        &self,
        piece: Piece,
        from_square: usize,
        to_square: usize,
        valid_pieces: (Piece, Piece),
        attack_row: &Vec<Option<usize>>,
    ) -> (r: bool)
        requires
            from_square < BOARD_SIZE,
            to_square < BOARD_SIZE,
            self.squares@[from_square as int] is Some,
            forall|i: int|
                0 <= i < attack_row@.len() && (#[trigger] attack_row@[i]) is Some ==> queen_reach(
                    from_square as int,
                    attack_row@[i]->Some_0 as int,
                ),
        ensures
            r == ((piece == valid_pieces.0 || piece == valid_pieces.1) && attack_row@.contains(
                Some(to_square),
            ) && path_clear(self.squares@, from_square as int, to_square as int) && dest_open(
                self.squares@,
                from_square as int,
                to_square as int,
            )),
    {
        let (white, black) = valid_pieces;
        if piece != white && piece != black {
            return false;
        }
        if !row_contains(attack_row, to_square) {
            return false;
        }
        let ghost b = self.squares@;
        let ghost from = from_square as int;
        let ghost to = to_square as int;
        proof {
            let i = choose|i: int| 0 <= i < attack_row@.len() && attack_row@[i] == Some(to_square);
            assert(queen_reach(from, to));
            lemma_line(from, to);
        }
        let ghost n = distance(from, to);
        let (from_rank, from_file) = square_to_coords(from_square);
        let (to_rank, to_file) = square_to_coords(to_square);
        let dir_r: i64 = if to_rank > from_rank {
            1
        } else if to_rank < from_rank {
            -1
        } else {
            0
        };
        let dir_f: i64 = if to_file > from_file {
            1
        } else if to_file < from_file {
            -1
        } else {
            0
        };
        assert(dir_r == sign(rank_delta(from, to)) && dir_f == sign(file_delta(from, to)));
        let mut r: i64 = from_rank as i64 + dir_r;
        let mut f: i64 = from_file as i64 + dir_f;
        let ghost mut j: int = 1;
        while !(r == to_rank as i64 && f == to_file as i64)
            invariant
                b == self.squares@,
                piece == valid_pieces.0 || piece == valid_pieces.1,
                attack_row@.contains(Some(to_square)),
                from == from_square as int,
                to == to_square as int,
                0 <= from < 64,
                0 <= to < 64,
                from_rank == rank_of(from),
                from_file == file_of(from),
                to_rank == rank_of(to),
                to_file == file_of(to),
                dir_r == sign(rank_delta(from, to)),
                dir_f == sign(file_delta(from, to)),
                n == distance(from, to),
                on_ray(from, dir_r as int, dir_f as int, n, to),
                1 <= j <= n,
                r == from_rank + scaled(j, dir_r as int),
                f == from_file + scaled(j, dir_f as int),
                forall|s: int| on_ray(from, dir_r as int, dir_f as int, j - 1, s) ==> b[s] is None,
            decreases n - j,
        {
            let sq = (r as usize) * 8 + f as usize;
            proof {
                lemma_square_coords(r as int, f as int);
                assert(on_ray(from, dir_r as int, dir_f as int, n - 1, sq as int));
            }
            if self.squares[sq].is_some() {
                assert(between(from, to, sq as int));
                return false;
            }
            proof {
                assert forall|s: int|
                    on_ray(from, dir_r as int, dir_f as int, j, s) implies b[s] is None by {
                    if !on_ray(from, dir_r as int, dir_f as int, j - 1, s) {
                        lemma_square_coords(rank_of(s), file_of(s));
                        assert(s == sq);
                    }
                }
                j = j + 1;
            }
            r += dir_r;
            f += dir_f;
        }
        assert(path_clear(b, from, to)) by {
            assert forall|s: int| #[trigger] between(from, to, s) implies b[s] is None by {
                assert(on_ray(from, dir_r as int, dir_f as int, j - 1, s));
            }
        }
        self.can_move_to_square(from_square, to_square)
    }

    /// Whether a queen `piece` on `from_square` may move to `to_square`.
    pub fn queen_can_move_to_square(&self, from_square: usize, to_square: usize, piece: Piece) -> (r:
        bool)
        requires
            from_square < BOARD_SIZE,
            to_square < BOARD_SIZE,
            self.squares@[from_square as int] is Some,
        ensures
            r == queen_move(self.squares@, from_square as int, to_square as int, piece),
    {
        let row = queen_row(from_square);
        proof {
            assert forall|i: int| 0 <= i < row@.len() && (#[trigger] row@[i]) is Some implies queen_reach(
                from_square as int,
                row@[i]->Some_0 as int,
            ) by {
                lemma_queen_row(from_square as int, row@[i]->Some_0);
            }
            lemma_queen_row(from_square as int, to_square);
        }
        self.sliding_piece_can_move_to_square(
            piece,
            from_square,
            to_square,
            (Piece::WhiteQueen, Piece::BlackQueen),
            &row,
        )
    }

    /// Whether a king `piece` on `from_square` may move to `to_square`.
    pub fn king_can_move_to_square(&self, from_square: usize, to_square: usize, piece: Piece) -> (r:
        bool)
        requires
            from_square < BOARD_SIZE,
            to_square < BOARD_SIZE,
            self.squares@[from_square as int] is Some,
        ensures
            r == king_move(self.squares@, from_square as int, to_square as int, piece),
    {
        let row = king_row(from_square);
        proof {
            assert forall|i: int| 0 <= i < row@.len() && (#[trigger] row@[i]) is Some implies queen_reach(
                from_square as int,
                row@[i]->Some_0 as int,
            ) by {
                lemma_king_row(from_square as int, row@[i]->Some_0);
            }
            lemma_king_row(from_square as int, to_square);
            if king_reach(from_square as int, to_square as int) {
                assert forall|s: int| #[trigger]
                    between(from_square as int, to_square as int, s) implies self.squares@[s] is None by {
                }
            }
        }
        self.sliding_piece_can_move_to_square(
            piece,
            from_square,
            to_square,
            (Piece::WhiteKing, Piece::BlackKing),
            &row,
        )
    }

    /// Whether a bishop `piece` on `from_square` may move to `to_square`.
    pub fn bishop_can_move_to_square(&self, from_square: usize, to_square: usize, piece: Piece) -> (r:
        bool)
        requires
            from_square < BOARD_SIZE,
            to_square < BOARD_SIZE,
            self.squares@[from_square as int] is Some,
        ensures
            r == bishop_move(self.squares@, from_square as int, to_square as int, piece),
    {
        let row = bishop_row(from_square);
        proof {
            assert forall|i: int| 0 <= i < row@.len() && (#[trigger] row@[i]) is Some implies queen_reach(
                from_square as int,
                row@[i]->Some_0 as int,
            ) by {
                lemma_bishop_row(from_square as int, row@[i]->Some_0);
            }
            lemma_bishop_row(from_square as int, to_square);
        }
        self.sliding_piece_can_move_to_square(
            piece,
            from_square,
            to_square,
            (Piece::WhiteBishop, Piece::BlackBishop),
            &row,
        )
    }

    /// Whether a rook `piece` on `from_square` may move to `to_square`.
    pub fn rook_can_move_to_square(&self, from_square: usize, to_square: usize, piece: Piece) -> (r:
        bool)
        requires
            from_square < BOARD_SIZE,
            to_square < BOARD_SIZE,
            self.squares@[from_square as int] is Some,
        ensures
            r == rook_move(self.squares@, from_square as int, to_square as int, piece),
    {
        let row = rook_row(from_square);
        proof {
            assert forall|i: int| 0 <= i < row@.len() && (#[trigger] row@[i]) is Some implies queen_reach(
                from_square as int,
                row@[i]->Some_0 as int,
            ) by {
                lemma_rook_row(from_square as int, row@[i]->Some_0);
            }
            lemma_rook_row(from_square as int, to_square);
        }
        self.sliding_piece_can_move_to_square(
            piece,
            from_square,
            to_square,
            (Piece::WhiteRook, Piece::BlackRook),
            &row,
        )
    }

    /// Whether a knight `piece` on `from_square` may move to `to_square`.
    pub fn knight_can_move_to_square(&self, from_square: usize, to_square: usize, piece: Piece) -> (r:
        bool)
        requires
            from_square < BOARD_SIZE,
            to_square < BOARD_SIZE,
            self.squares@[from_square as int] is Some,
        ensures
            r == knight_move(self.squares@, from_square as int, to_square as int, piece),
    {
        let (rank, file) = square_to_coords(from_square);
        knight_attacks_king(rank, file, to_square, piece) && self.can_move_to_square(
            from_square,
            to_square,
        )
    }

    /// Whether a pawn `piece` on `from_square` attacks `to_square`: the square
    /// is diagonally in front of it and holds a piece of either colour.
    pub fn pawn_can_attack_move_square(&self, from_square: usize, to_square: usize, piece: Piece) -> (r:
        bool)
        requires
            from_square < BOARD_SIZE,
            to_square < BOARD_SIZE,
        ensures
            r == pawn_attack(self.squares@, from_square as int, to_square as int, piece),
    {
        if piece != Piece::BlackPawn && piece != Piece::WhitePawn {
            return false;
        }
        if self.squares[to_square].is_none() {
            return false;
        }
        let (rank, file) = square_to_coords(from_square);
        pawn_attacks_king(rank, file, to_square, piece)
    }

    /// Whether a pawn `piece` on `from_square` may move to `to_square`.
    fn pawn_can_move_to_square(&self, piece: Piece, from_square: usize, to_square: usize) -> (r: bool)
        requires
            from_square < BOARD_SIZE,
            to_square < BOARD_SIZE,
            self.squares@[from_square as int] is Some,
            piece.is_pawn(),
        ensures
            r == pawn_move(self.squares@, from_square as int, to_square as int, piece),
    {
        let (rank_from, file_from) = square_to_coords(from_square);
        let (rank_to, file_to) = square_to_coords(to_square);
        let black = piece == Piece::BlackPawn;
        let dir: i64 = if black {
            -1
        } else {
            1
        };
        let last_rank: usize = if black {
            0
        } else {
            7
        };
        let start_rank: usize = if black {
            6
        } else {
            1
        };
        if rank_from == last_rank {
            return false;
        }
        if rank_from as i64 + dir == rank_to as i64 && file_from == file_to
            && self.squares[to_square].is_none() {
            return true;
        }
        if rank_from == start_rank && rank_from as i64 + 2 * dir == rank_to as i64 && file_from
            == file_to && self.squares[coords_to_square(
            (rank_from as i64 + dir) as usize,
            file_from,
        )].is_none() && self.squares[to_square].is_none() {
            return true;
        }
        self.pawn_can_attack_move_square(from_square, to_square, piece) && self.can_move_to_square(
            from_square,
            to_square,
        )
    }

    /// Try to move the piece on `from_square` to `to_square`. On success the
    /// piece stands on `to_square`, `from_square` is empty, and the piece that
    /// stood on `to_square` before, if any, is returned. On failure the board
    /// is left as it was. The board must not hold two kings of one colour
    /// (`well_formed`): which of them the safety rule guards would be
    /// undefined.
    pub fn move_piece(&mut self, from_square: usize, to_square: usize) -> (r: Result<
        Option<Piece>,
        MoveError,
    >)
        requires
            from_square < BOARD_SIZE,
            to_square < BOARD_SIZE,
            old(self).well_formed(),
        ensures
            r == move_outcome(old(self).squares@, from_square as int, to_square as int),
            final(self).squares@ == (if r is Ok {
                applied(old(self).squares@, from_square as int, to_square as int)
            } else {
                old(self).squares@
            }),
            final(self).well_formed(),
    {
        let ghost b = self.squares@;
        let piece = match self.squares[from_square] {
            Some(p) => p,
            None => return Err(MoveError::NoPieceOnSource),
        };
        let verdict = match piece {
            Piece::WhiteKnight | Piece::BlackKnight => if self.knight_can_move_to_square(
                from_square,
                to_square,
                piece,
            ) {
                Ok(())
            } else {
                Err(MoveError::IllegalKnightMove)
            },
            Piece::WhiteKing | Piece::BlackKing => if self.king_can_move_to_square(
                from_square,
                to_square,
                piece,
            ) {
                Ok(())
            } else {
                Err(MoveError::IllegalKingMove)
            },
            Piece::WhitePawn | Piece::BlackPawn => if self.pawn_can_move_to_square(
                piece,
                from_square,
                to_square,
            ) {
                Ok(())
            } else {
                Err(MoveError::IllegalPawnMove)
            },
            Piece::WhiteQueen | Piece::BlackQueen => if self.queen_can_move_to_square(
                from_square,
                to_square,
                piece,
            ) {
                Ok(())
            } else {
                Err(MoveError::IllegalQueenMove)
            },
            Piece::WhiteRook | Piece::BlackRook => if self.rook_can_move_to_square(
                from_square,
                to_square,
                piece,
            ) {
                Ok(())
            } else {
                Err(MoveError::IllegalRookMove)
            },
            Piece::WhiteBishop | Piece::BlackBishop => if self.bishop_can_move_to_square(
                from_square,
                to_square,
                piece,
            ) {
                Ok(())
            } else {
                Err(MoveError::IllegalBishopMove)
            },
        };
        if let Err(e) = verdict {
            return Err(e);
        }
        proof {
            lemma_legal_moves_away(b, from_square as int, to_square as int);
            lemma_applied_kings_unique(b, from_square as int, to_square as int);
        }
        let captured = self.squares[to_square];
        self.squares[to_square] = Some(piece);
        self.squares[from_square] = None;
        assert(self.squares@ =~= applied(b, from_square as int, to_square as int));
        if !self.is_king_safe(piece.is_white_piece()) {
            self.squares[from_square] = Some(piece);
            self.squares[to_square] = captured;
            assert(self.squares@ =~= b);
            return Err(MoveError::KingInCheck);
        }
        Ok(captured)
    }

    /// Whether no enemy piece attacks the king of the side `is_white_turn`.
    /// A side with no king on the board is safe.
    fn is_king_safe(&self, is_white_turn: bool) -> (r: bool)
        requires
            self.well_formed(),
        ensures
            r == !king_in_check(self.squares@, is_white_turn),
    {
        let ghost b = self.squares@;
        let king = if is_white_turn {
            Piece::WhiteKing
        } else {
            Piece::BlackKing
        };
        let king_square = match self.find_piece(king) {
            Some(k) => k,
            None => return true,
        };
        let mut i: usize = 0;
        while i < BOARD_SIZE
            invariant
                b == self.squares@,
                king_square < BOARD_SIZE,
                b[king_square as int] == Some(king_of(is_white_turn)),
                i <= BOARD_SIZE,
                forall|s: int|
                    0 <= s < i ==> !(b[s] is Some && b[s]->Some_0.is_white() != is_white_turn
                        && #[trigger] threatens(b, s, king_square as int)),
            decreases BOARD_SIZE - i,
        {
            if let Some(piece) = self.squares[i] {
                if piece != Piece::WhiteKing && piece != Piece::BlackKing {
                    let is_enemy = if is_white_turn {
                        piece.is_black_piece()
                    } else {
                        piece.is_white_piece()
                    };
                    if is_enemy {
                        if self.queen_can_move_to_square(i, king_square, piece)
                            || self.rook_can_move_to_square(i, king_square, piece)
                            || self.bishop_can_move_to_square(i, king_square, piece)
                            || self.knight_can_move_to_square(i, king_square, piece)
                            || self.pawn_can_attack_move_square(i, king_square, piece) {
                            assert(threatens(b, i as int, king_square as int));
                            return false;
                        }
                    }
                }
            }
            i += 1;
        }
        proof {
            if king_in_check(b, is_white_turn) {
                let (k, s) = choose|k: int, s: int|
                    0 <= k < 64 && 0 <= s < 64 && b[k] == Some(king_of(is_white_turn)) && b[s] is Some
                        && b[s]->Some_0.is_white() != is_white_turn && #[trigger] threatens(b, s, k);
                assert(b[k] == b[king_square as int]);
            }
        }
        true
    }

    /// The board as text: one line per rank from rank 8 down to rank 1, each
    /// starting with the rank's number, each square shown by its piece's
    /// letter (upper case for the light side) or `.`, then a line of file
    /// letters.
    pub fn to_string(&self) -> (text: String)
        ensures
            text@ == board_text(self.squares@),
    {
        let ghost b = self.squares@;
        let mut out = String::new();
        let mut m: usize = 0;
        while m < 8
            invariant
                b == self.squares@,
                m <= 8,
                out@ == ranks_text(b, m as int),
            decreases 8 - m,
        {
            let rank = 7 - m;
            push_char(&mut out, rank_char(rank));
            push_char(&mut out, ' ');
            let mut file: usize = 0;
            while file < 8
                invariant
                    b == self.squares@,
                    m < 8,
                    rank == 7 - m,
                    file <= 8,
                    out@ == ranks_text(b, m as int) + seq![rank_digit(rank as int), ' '] + cells_text(
                        b,
                        rank as int,
                        file as int,
                    ),
                decreases 8 - file,
            {
                let symbol = match self.squares[coords_to_square(rank, file)] {
                    Some(p) => p.to_char(),
                    None => '.',
                };
                push_char(&mut out, symbol);
                push_char(&mut out, ' ');
                file += 1;
                assert(out@ =~= ranks_text(b, m as int) + seq![rank_digit(rank as int), ' ']
                    + cells_text(b, rank as int, file as int));
            }
            push_char(&mut out, '\n');
            m += 1;
            assert(out@ =~= ranks_text(b, m as int));
        }
        out.append("  a b c d e f g h\n");
        out
    }

    /// The first square holding `piece`, if any.
    fn find_piece(&self, piece: Piece) -> (r: Option<usize>)
        ensures
            match r {
                Some(i) => i < BOARD_SIZE && self.squares@[i as int] == Some(piece) && forall|
                    j: int,
                | 0 <= j < i ==> self.squares@[j] != Some(piece),
                None => forall|j: int| 0 <= j < BOARD_SIZE ==> self.squares@[j] != Some(piece),
            },
    {
        let mut i: usize = 0;
        while i < BOARD_SIZE
            invariant
                i <= BOARD_SIZE,
                forall|j: int| 0 <= j < i ==> self.squares@[j] != Some(piece),
            decreases BOARD_SIZE - i,
        {
            if self.squares[i] == Some(piece) {
                return Some(i);
            }
            i += 1;
        }
        None
    }
}

} // verus!
