//! The rules as mathematics: what each kind of piece may do on a given
//! position, when a king is attacked, and what a move attempt gives.
use vstd::prelude::*;

use crate::error::MoveError;
use crate::pieces::Piece;
use crate::utils::{
    abs, bishop_reach, file_delta, file_of, king_reach, knight_reach, on_ray, queen_reach,
    rank_delta, rank_of, rook_reach, square_at,
};

verus! {

/// -1, 0 or 1 after the sign of `x`.
pub open spec fn sign(x: int) -> int {
    if x > 0 {
        1
    } else if x < 0 {
        -1
    } else {
        0
    }
}

/// Number of king steps along a straight line from `from` to `to`.
pub open spec fn distance(from: int, to: int) -> int {
    if abs(rank_delta(from, to)) >= abs(file_delta(from, to)) {
        abs(rank_delta(from, to))
    } else {
        abs(file_delta(from, to))
    }
}

/// `s` lies strictly between `from` and `to` on the straight line joining
/// them.
pub open spec fn between(from: int, to: int, s: int) -> bool {
    on_ray(
        from,
        sign(rank_delta(from, to)),
        sign(file_delta(from, to)),
        distance(from, to) - 1,
        s,
    )
}

/// Every square strictly between `from` and `to` is empty.
pub open spec fn path_clear(b: Seq<Option<Piece>>, from: int, to: int) -> bool {
    forall|s: int| #[trigger] between(from, to, s) ==> b[s] is None
}

/// `to` is empty or holds a piece of the other colour than the one on `from`.
pub open spec fn dest_open(b: Seq<Option<Piece>>, from: int, to: int) -> bool {
    b[to] is None || b[to]->Some_0.is_white() != b[from]->Some_0.is_white()
}

/// The board with no piece on it.
pub open spec fn empty_squares() -> Seq<Option<Piece>> {
    Seq::new(64, |i: int| None::<Piece>)
}

/// The piece a side starts with on `file` of its back rank.
pub open spec fn back_rank_piece(file: int, white: bool) -> Piece {
    if file == 0 || file == 7 {
        if white { Piece::WhiteRook } else { Piece::BlackRook }
    } else if file == 1 || file == 6 {
        if white { Piece::WhiteKnight } else { Piece::BlackKnight }
    } else if file == 2 || file == 5 {
        if white { Piece::WhiteBishop } else { Piece::BlackBishop }
    } else if file == 3 {
        if white { Piece::WhiteQueen } else { Piece::BlackQueen }
    } else {
        if white { Piece::WhiteKing } else { Piece::BlackKing }
    }
}

/// What square `i` holds in the standard opening position.
pub open spec fn start_square(i: int) -> Option<Piece> {
    if rank_of(i) == 0 {
        Some(back_rank_piece(file_of(i), true))
    } else if rank_of(i) == 1 {
        Some(Piece::WhitePawn)
    } else if rank_of(i) == 6 {
        Some(Piece::BlackPawn)
    } else if rank_of(i) == 7 {
        Some(back_rank_piece(file_of(i), false))
    } else {
        None
    }
}

/// The standard opening position.
pub open spec fn start_position() -> Seq<Option<Piece>> {
    Seq::new(64, |i: int| start_square(i))
}

/// How many squares of `b` satisfy `f`.
pub open spec fn count_where(b: Seq<Option<Piece>>, f: spec_fn(Option<Piece>) -> bool) -> nat
    decreases b.len(),
{
    if b.len() == 0 {
        0
    } else {
        count_where(b.drop_last(), f) + if f(b.last()) {
            1nat
        } else {
            0nat
        }
    }
}

/// How many squares of `b` hold a piece.
pub open spec fn occupied_count(b: Seq<Option<Piece>>) -> nat {
    count_where(b, |x: Option<Piece>| x is Some)
}

/// How many squares of `b` hold a piece of the side `white`.
pub open spec fn side_count(b: Seq<Option<Piece>>, white: bool) -> nat {
    count_where(b, |x: Option<Piece>| x is Some && x->Some_0.is_white() == white)
}

/// How many squares of `b` hold `piece`.
pub open spec fn piece_count(b: Seq<Option<Piece>>, piece: Piece) -> nat {
    count_where(b, |x: Option<Piece>| x == Some(piece))
}

/// No colour has two kings, so a side's king, if it has one, is the first
/// one a scan of the squares finds.
pub open spec fn kings_unique(b: Seq<Option<Piece>>) -> bool {
    forall|i: int, j: int|
        0 <= i < 64 && 0 <= j < 64 && #[trigger] b[i] == #[trigger] b[j] && b[i] is Some
            && b[i]->Some_0.is_king() ==> i == j
}

/// A queen `piece` on `from` may move to `to`: on its lines, nothing in
/// between, and no friendly piece on `to`.
pub open spec fn queen_move(b: Seq<Option<Piece>>, from: int, to: int, piece: Piece) -> bool {
    &&& piece.is_queen()
    &&& queen_reach(from, to)
    &&& path_clear(b, from, to)
    &&& dest_open(b, from, to)
}

/// A rook `piece` on `from` may move to `to`.
pub open spec fn rook_move(b: Seq<Option<Piece>>, from: int, to: int, piece: Piece) -> bool {
    &&& piece.is_rook()
    &&& rook_reach(from, to)
    &&& path_clear(b, from, to)
    &&& dest_open(b, from, to)
}

/// A bishop `piece` on `from` may move to `to`.
pub open spec fn bishop_move(b: Seq<Option<Piece>>, from: int, to: int, piece: Piece) -> bool {
    &&& piece.is_bishop()
    &&& bishop_reach(from, to)
    &&& path_clear(b, from, to)
    &&& dest_open(b, from, to)
}

/// A king `piece` on `from` may move to `to`: one step, no friendly piece there.
pub open spec fn king_move(b: Seq<Option<Piece>>, from: int, to: int, piece: Piece) -> bool {
    &&& piece.is_king()
    &&& king_reach(from, to)
    &&& dest_open(b, from, to)
}

/// A knight `piece` on `from` may move to `to`: one jump, no friendly piece there.
pub open spec fn knight_move(b: Seq<Option<Piece>>, from: int, to: int, piece: Piece) -> bool {
    &&& piece.is_knight()
    &&& knight_reach(from, to)
    &&& dest_open(b, from, to)
}

/// The rank step towards the opponent for a pawn `piece`.
pub open spec fn forward(piece: Piece) -> int {
    if piece == Piece::BlackPawn {
        -1
    } else {
        1
    }
}

/// The rank a pawn `piece` starts on.
pub open spec fn start_rank(piece: Piece) -> int {
    if piece == Piece::BlackPawn {
        6
    } else {
        1
    }
}

/// The opponent's back rank, from a pawn `piece`'s point of view.
pub open spec fn last_rank(piece: Piece) -> int {
    if piece == Piece::BlackPawn {
        0
    } else {
        7
    }
}

/// `to` is one of the two squares diagonally in front of a pawn `piece` on
/// `from`, whatever stands on it.
pub open spec fn pawn_diagonal(piece: Piece, from: int, to: int) -> bool {
    &&& piece.is_pawn()
    &&& 0 <= to < 64
    &&& rank_delta(from, to) == forward(piece)
    &&& abs(file_delta(from, to)) == 1
}

/// A pawn `piece` on `from` attacks an occupied square `to`.
pub open spec fn pawn_attack(b: Seq<Option<Piece>>, from: int, to: int, piece: Piece) -> bool {
    &&& pawn_diagonal(piece, from, to)
    &&& b[to] is Some
}

/// A pawn `piece` on `from` may move to `to`: one step forward onto an empty
/// square, two from its start rank over two empty squares, or diagonally
/// forward onto an enemy piece; never from the opponent's back rank.
pub open spec fn pawn_move(b: Seq<Option<Piece>>, from: int, to: int, piece: Piece) -> bool {
    &&& piece.is_pawn()
    &&& rank_of(from) != last_rank(piece)
    &&& {
        ||| file_delta(from, to) == 0 && rank_delta(from, to) == forward(piece) && b[to] is None
        ||| file_delta(from, to) == 0 && rank_of(from) == start_rank(piece) && rank_delta(from, to)
            == 2 * forward(piece) && b[square_at(rank_of(from) + forward(piece), file_of(from))] is None
            && b[to] is None
        ||| pawn_attack(b, from, to, piece) && dest_open(b, from, to)
    }
}

/// The king of the light side (`white`) or of the dark side.
pub open spec fn king_of(white: bool) -> Piece {
    if white {
        Piece::WhiteKing
    } else {
        Piece::BlackKing
    }
}

/// The piece on `s` attacks square `k`. Kings are not counted as attackers;
/// the others attack as they move, a pawn only diagonally forward.
pub open spec fn threatens(b: Seq<Option<Piece>>, s: int, k: int) -> bool {
    let p = b[s]->Some_0;
    &&& b[s] is Some
    &&& !p.is_king()
    &&& {
        ||| queen_move(b, s, k, p)
        ||| rook_move(b, s, k, p)
        ||| bishop_move(b, s, k, p)
        ||| knight_move(b, s, k, p)
        ||| pawn_attack(b, s, k, p)
    }
}

/// The king of the side `white` stands on a square that an enemy piece
/// attacks. A side with no king on the board is never in check.
pub open spec fn king_in_check(b: Seq<Option<Piece>>, white: bool) -> bool {
    exists|k: int, s: int|
        0 <= k < 64 && 0 <= s < 64 && b[k] == Some(king_of(white)) && b[s] is Some
            && b[s]->Some_0.is_white() != white && #[trigger] threatens(b, s, k)
}

/// Whether the piece on `from` may go to `to` by the rules of its kind,
/// before the safety of its own king is considered.
pub open spec fn legal_move(b: Seq<Option<Piece>>, from: int, to: int) -> bool {
    let p = b[from]->Some_0;
    if p.is_knight() {
        knight_move(b, from, to, p)
    } else if p.is_king() {
        king_move(b, from, to, p)
    } else if p.is_pawn() {
        pawn_move(b, from, to, p)
    } else if p.is_queen() {
        queen_move(b, from, to, p)
    } else if p.is_rook() {
        rook_move(b, from, to, p)
    } else {
        bishop_move(b, from, to, p)
    }
}

/// The rejection for a move that breaks the rules of `p`'s kind.
pub open spec fn illegal_error(p: Piece) -> MoveError {
    if p.is_knight() {
        MoveError::IllegalKnightMove
    } else if p.is_king() {
        MoveError::IllegalKingMove
    } else if p.is_pawn() {
        MoveError::IllegalPawnMove
    } else if p.is_queen() {
        MoveError::IllegalQueenMove
    } else if p.is_rook() {
        MoveError::IllegalRookMove
    } else {
        MoveError::IllegalBishopMove
    }
}

/// The board after the piece on `from` goes to `to`.
pub open spec fn applied(b: Seq<Option<Piece>>, from: int, to: int) -> Seq<Option<Piece>> {
    b.update(to, b[from]).update(from, None)
}

/// What an attempt to move the piece on `from` to `to` gives: the captured
/// piece, if any, or the reason for rejection.
pub open spec fn move_outcome(b: Seq<Option<Piece>>, from: int, to: int) -> Result<
    Option<Piece>,
    MoveError,
> {
    if b[from] is None {
        Err(MoveError::NoPieceOnSource)
    } else if !legal_move(b, from, to) {
        Err(illegal_error(b[from]->Some_0))
    } else if king_in_check(applied(b, from, to), b[from]->Some_0.is_white()) {
        Err(MoveError::KingInCheck)
    } else {
        Ok(b[to])
    }
}

/// No piece's rules let it stay where it is.
pub(crate) proof fn lemma_legal_moves_away(b: Seq<Option<Piece>>, from: int, to: int)
    requires
        0 <= from < 64,
        legal_move(b, from, to),
    ensures
        from != to,
{
}

/// Moving a piece never gives a side a second king.
pub(crate) proof fn lemma_applied_kings_unique(b: Seq<Option<Piece>>, from: int, to: int)
    requires
        b.len() == 64,
        0 <= from < 64,
        0 <= to < 64,
        from != to,
        kings_unique(b),
    ensures
        kings_unique(applied(b, from, to)),
{
    let a = applied(b, from, to);
    assert forall|i: int, j: int|
        0 <= i < 64 && 0 <= j < 64 && #[trigger] a[i] == #[trigger] a[j] && a[i] is Some
            && a[i]->Some_0.is_king() implies i == j by {
        let oi = if i == to {
            from
        } else {
            i
        };
        let oj = if j == to {
            from
        } else {
            j
        };
        assert(b[oi] == a[i] && b[oj] == a[j]);
    }
}

/// A straight line from `from` to a square on it, walked from `from`, meets
/// the target after `distance` steps.
pub(crate) proof fn lemma_line(from: int, to: int)
    requires
        0 <= from < 64,
        queen_reach(from, to),
    ensures
        distance(from, to) >= 1,
        on_ray(from, sign(rank_delta(from, to)), sign(file_delta(from, to)), distance(from, to), to),
{
}

} // verus!
